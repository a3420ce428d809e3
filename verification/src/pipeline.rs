//! The whole template-acquisition pipeline, on in-memory values.
//!
//! An archive request derives the download location and the expected
//! top-level directory name.  Given the fetched archive bytes, the
//! pipeline decodes the entries, plans a safe extraction, relocates the
//! planned tree to the canonical frontend path, and stamps the project's
//! name, version, description and post-build script into the relocated
//! package manifest.  The driver only fetches the bytes and carries out
//! the returned writes.

use vstd::prelude::*;
use vstd::string::StringSliceAdditionalSpecFns;

use crate::archive::read_archive;
use crate::archive::zip_decodes;
use crate::archive::zip_payload;
use crate::bytestr::copy_range;
use crate::bytestr::copy_segs;
use crate::bytestr::lemma_deep_bytes;
use crate::bytestr::lit_bytes;
use crate::bytestr::push_all;
use crate::bytestr::segs_eq;
use crate::error::ScaffoldError;
use crate::extract::PlanItemV;
use crate::extract::PlannedWrite;
use crate::extract::plan_extraction;
use crate::extract::plan_has_top;
use crate::extract::plan_spec;
use crate::extract::plan_view;
use crate::extract::pw_view;
use crate::extract::reloc_spec;
use crate::extract::relocate;
use crate::json::JsonV;
use crate::json::jv;
use crate::json::parse_doc;
use crate::json::ser_doc;
use crate::manifest::PackageFields;
use crate::manifest::insert_script;
use crate::manifest::load;
use crate::manifest::pkg_patch;
use crate::manifest::save;
use crate::manifest::script_patch;
use crate::manifest::set_package_fields;

verus! {

// ---------------------------------------------------------------------
// The archive request.
// ---------------------------------------------------------------------

/// A named branch of a remote repository, to be fetched as an archive.
pub struct ArchiveRequest {
    /// The repository owner.
    pub owner: Vec<u8>,
    /// The repository name.
    pub repo: Vec<u8>,
    /// The branch whose head is fetched.
    pub branch: Vec<u8>,
}

/// The canonical download location of a request.
pub open spec fn url_spec(owner: Seq<u8>, repo: Seq<u8>, branch: Seq<u8>) -> Seq<u8> {
    "https://github.com/".spec_bytes() + owner + seq![47u8] + repo
        + "/archive/refs/heads/".spec_bytes() + branch + ".zip".spec_bytes()
}

/// The archive's deterministic top-level directory name.
pub open spec fn top_dir_spec(repo: Seq<u8>, branch: Seq<u8>) -> Seq<u8> {
    repo + seq![45u8] + branch
}

impl ArchiveRequest {
    /// The canonical download location, as text bytes.
    pub fn url_bytes(&self) -> (r: Vec<u8>)
        ensures
            r@ == url_spec(self.owner@, self.repo@, self.branch@),
    {
        let mut r = lit_bytes("https://github.com/");
        push_all(&mut r, self.owner.as_slice());
        r.push(47);
        push_all(&mut r, self.repo.as_slice());
        let mid = lit_bytes("/archive/refs/heads/");
        push_all(&mut r, mid.as_slice());
        push_all(&mut r, self.branch.as_slice());
        let ext = lit_bytes(".zip");
        push_all(&mut r, ext.as_slice());
        proof {
            assert(r@ =~= url_spec(self.owner@, self.repo@, self.branch@));
        }
        r
    }

    /// The expected top-level directory name of the extracted archive.
    pub fn top_dir(&self) -> (r: Vec<u8>)
        ensures
            r@ == top_dir_spec(self.repo@, self.branch@),
    {
        let mut r = copy_range(&self.repo, 0, self.repo.len());
        proof {
            assert(self.repo@.subrange(0, self.repo@.len() as int) =~= self.repo@);
        }
        r.push(45);
        push_all(&mut r, self.branch.as_slice());
        proof {
            assert(r@ =~= top_dir_spec(self.repo@, self.branch@));
        }
        r
    }
}

// ---------------------------------------------------------------------
// The frontend scaffold.
// ---------------------------------------------------------------------

/// The file name of the package manifest: `package.json`.
pub open spec fn pkg_json_name() -> Seq<u8> {
    "package.json".spec_bytes()
}

/// The script key the scaffold inserts: `postbuild`.
pub open spec fn postbuild_key() -> Seq<u8> {
    "postbuild".spec_bytes()
}

/// The command of the inserted script entry.
pub open spec fn postbuild_cmd() -> Seq<u8> {
    "node scripts/postbuild.js".spec_bytes()
}

/// The last write of a file at the given path; that write's content is
/// what extraction leaves on disk there.
pub open spec fn find_last_file(plan: Seq<PlanItemV>, segs: Seq<Seq<u8>>) -> Option<int>
    decreases plan.len(),
{
    if plan.len() == 0 {
        None
    } else if plan.last().segs == segs && !plan.last().is_dir {
        Some(plan.len() - 1)
    } else {
        find_last_file(plan.drop_last(), segs)
    }
}

/// The package manifest after stamping: name, version and description
/// overwritten or inserted; the post-build script entry inserted where
/// the manifest has a script map, and skipped with a notice where not.
pub open spec fn patched_doc(d: JsonV, name: Seq<u8>, version: Seq<u8>, desc: Seq<u8>) -> JsonV {
    let d1 = pkg_patch(d, Some(name), Some(version), Some(desc), true);
    match script_patch(d1, postbuild_key(), postbuild_cmd()) {
        Some(d2) => d2,
        None => d1,
    }
}

/// What the pipeline produces from a decoded entry list: the relocated
/// extraction plan, with the package manifest's content replaced by its
/// stamped form.  Fails with `IoError` where no planned write lies under
/// the expected top-level directory or where the relocated tree holds no
/// package manifest, and with `ParseError` where the manifest text is not
/// valid.
pub open spec fn scaffold_from_entries(
    entries: Seq<(Seq<u8>, Seq<u8>)>,
    top: Seq<u8>,
    dest: Seq<Seq<u8>>,
    name: Seq<u8>,
    version: Seq<u8>,
    desc: Seq<u8>,
) -> Result<Seq<PlanItemV>, ScaffoldError> {
    let plan = plan_spec(entries);
    if !plan_has_top(plan, top) {
        Err(ScaffoldError::IoError)
    } else {
        let rp = reloc_spec(plan, top, dest);
        match find_last_file(rp, dest.push(pkg_json_name())) {
            None => Err(ScaffoldError::IoError),
            Some(i) => match parse_doc(rp[i].data) {
                None => Err(ScaffoldError::ParseError),
                Some(d) => Ok(
                    rp.update(
                        i,
                        PlanItemV {
                            segs: rp[i].segs,
                            is_dir: false,
                            data: ser_doc(patched_doc(d, name, version, desc)),
                        },
                    ),
                ),
            },
        }
    }
}

/// Finds the last planned write of a file at the given path.
fn find_last_file_exec(plan: &Vec<PlannedWrite>, segs: &Vec<Vec<u8>>) -> (r: Option<usize>)
    ensures
        match r {
            Some(i) => i < plan@.len() && find_last_file(plan_view(plan@), segs.deep_view())
                == Some(i as int),
            None => find_last_file(plan_view(plan@), segs.deep_view()) is None,
        },
{
    let ghost pv = plan_view(plan@);
    let ghost sv = segs.deep_view();
    let n = plan.len();
    let mut found: Option<usize> = None;
    let mut i: usize = 0;
    while i < n
        invariant
            0 <= i <= n,
            n == plan@.len(),
            pv == plan_view(plan@),
            sv == segs.deep_view(),
            pv.len() == n,
            (match found {
                Some(j) => j < i && find_last_file(pv.take(i as int), sv) == Some(j as int),
                None => find_last_file(pv.take(i as int), sv) is None,
            }),
        decreases n - i,
    {
        proof {
            assert(pv[i as int] == pw_view(plan@[i as int]));
            assert(pv.take(i + 1).drop_last() =~= pv.take(i as int));
            assert(pv.take(i + 1).last() == pv[i as int]);
        }
        if !plan[i].is_dir && segs_eq(&plan[i].segs, segs) {
            found = Some(i);
        }
        i = i + 1;
    }
    proof {
        assert(pv.take(n as int) =~= pv);
    }
    found
}

/// Runs the in-memory pipeline on fetched archive bytes: decodes the
/// entries, plans a safe extraction, relocates the tree from under `top`
/// to `dest`, and stamps name, version, description and the post-build
/// script entry into the relocated package manifest.  The result is the
/// full list of writes the driver must carry out; nothing outside `dest`
/// is ever written.  Undecodable archive bytes give exactly the archive
/// error; on decodable bytes the result matches [`scaffold_from_entries`]
/// on the payload, success and failure alike.
pub fn scaffold_frontend_writes(
    archive: Vec<u8>,
    top: &Vec<u8>,
    dest: &Vec<Vec<u8>>,
    name: &Vec<u8>,
    version: &Vec<u8>,
    description: &Vec<u8>,
) -> (r: Result<Vec<PlannedWrite>, ScaffoldError>)
    ensures
        !zip_decodes(archive@) ==> r == Err::<Vec<PlannedWrite>, ScaffoldError>(
            ScaffoldError::ArchiveError,
        ),
        zip_decodes(archive@) ==> match scaffold_from_entries(
            zip_payload(archive@),
            top@,
            dest.deep_view(),
            name@,
            version@,
            description@,
        ) {
            Ok(p) => r is Ok && plan_view(r->Ok_0@) == p,
            Err(e) => r == Err::<Vec<PlannedWrite>, ScaffoldError>(e),
        },
{
    let ghost payload = zip_payload(archive@);
    let entries = match read_archive(archive) {
        Ok(es) => es,
        Err(e) => {
            return Err(e);
        },
    };
    let plan = plan_extraction(&entries);
    let rel = match relocate(plan, top, dest) {
        Ok(ws) => ws,
        Err(e) => {
            return Err(e);
        },
    };
    let mut target = copy_segs(dest);
    let pkg = lit_bytes("package.json");
    target.push(pkg);
    proof {
        lemma_deep_bytes(&target);
        lemma_deep_bytes(dest);
        assert(target.deep_view() =~= dest.deep_view().push(pkg_json_name()));
    }
    let idx = match find_last_file_exec(&rel, &target) {
        Some(i) => i,
        None => {
            return Err(ScaffoldError::IoError);
        },
    };
    let ghost rp = plan_view(rel@);
    let wdata = copy_range(&rel[idx].data, 0, rel[idx].data.len());
    proof {
        assert(rel@[idx as int].data@.subrange(0, rel@[idx as int].data@.len() as int)
            =~= rel@[idx as int].data@);
        assert(rp[idx as int] == pw_view(rel@[idx as int]));
    }
    let doc = match load(&wdata) {
        Ok(d) => d,
        Err(e) => {
            return Err(e);
        },
    };
    let fields = PackageFields {
        name: Some(copy_range(name, 0, name.len())),
        version: Some(copy_range(version, 0, version.len())),
        description: Some(copy_range(description, 0, description.len())),
    };
    proof {
        assert(name@.subrange(0, name@.len() as int) =~= name@);
        assert(version@.subrange(0, version@.len() as int) =~= version@);
        assert(description@.subrange(0, description@.len() as int) =~= description@);
    }
    let (doc1, _skipped) = set_package_fields(doc, &fields, true);
    let kb = lit_bytes("postbuild");
    let cb = lit_bytes("node scripts/postbuild.js");
    let (doc2, _inserted) = insert_script(doc1, &kb, &cb);
    let newdata = save(&doc2);
    let mut rel = rel;
    let ghost rel0 = rel@;
    let old_w = rel.remove(idx);
    rel.insert(idx, PlannedWrite { segs: old_w.segs, is_dir: false, data: newdata });
    proof {
        let d = parse_doc(rp[idx as int].data)->Some_0;
        let pd = patched_doc(d, name@, version@, description@);
        assert(jv(doc2) == pd);
        let newitem = PlanItemV { segs: rp[idx as int].segs, is_dir: false, data: ser_doc(pd) };
        assert(old_w == rel0[idx as int]);
        assert(rel@ =~= rel0.update(
            idx as int,
            PlannedWrite { segs: old_w.segs, is_dir: false, data: newdata },
        ));
        assert(pw_view(rel@[idx as int]) == newitem);
        assert(plan_view(rel@) =~= rp.update(idx as int, newitem)) by {
            assert forall|q: int| 0 <= q < rel@.len() implies #[trigger] plan_view(rel@)[q]
                == rp.update(idx as int, newitem)[q] by {
                assert(plan_view(rel@)[q] == pw_view(rel@[q]));
                if q != idx {
                    assert(rel@[q] == rel0[q]);
                    assert(plan_view(rel0)[q] == pw_view(rel0[q]));
                }
            }
        }
    }
        Ok(rel)
}

} // verus!
