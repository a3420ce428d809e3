//! Safe extraction, relocation and the whole in-memory pipeline.

use std::io::Cursor;
use std::io::Write;

use chm_scaffold::archive::read_archive;
use chm_scaffold::error::ScaffoldError;
use chm_scaffold::extract::plan_extraction;
use chm_scaffold::extract::relocate;
use chm_scaffold::manifest::load;
use chm_scaffold::manifest::save;
use chm_scaffold::paths::normalize_entry_path;
use chm_scaffold::pipeline::scaffold_frontend_writes;
use chm_scaffold::pipeline::ArchiveRequest;

fn v(s: &str) -> Vec<u8> {
    s.as_bytes().to_vec()
}

fn make_zip(entries: &[(&str, Option<&str>)]) -> Vec<u8> {
    let mut w = zip::ZipWriter::new(Cursor::new(Vec::new()));
    let opts = zip::write::SimpleFileOptions::default();
    for (name, content) in entries.iter() {
        match content {
            Some(text) => {
                w.start_file(*name, opts).unwrap();
                w.write_all(text.as_bytes()).unwrap();
            },
            None => {
                w.add_directory(*name, opts).unwrap();
            },
        }
    }
    w.finish().unwrap().into_inner()
}

#[test]
fn normalization_resolves_or_rejects() {
    assert_eq!(
        normalize_entry_path(&v("a/b.txt")).unwrap(),
        vec![v("a"), v("b.txt")],
    );
    assert_eq!(normalize_entry_path(&v("a/../b")).unwrap(), vec![v("b")]);
    assert_eq!(normalize_entry_path(&v("a/./b")).unwrap(), vec![v("a"), v("b")]);
    assert_eq!(normalize_entry_path(&v("a//b")).unwrap(), vec![v("a"), v("b")]);
    assert_eq!(normalize_entry_path(&v("dir/")).unwrap(), vec![v("dir")]);
    assert!(normalize_entry_path(&v("../../etc/evil")).is_none());
    assert!(normalize_entry_path(&v("a/../../b")).is_none());
    assert!(normalize_entry_path(&v("/etc/passwd")).is_none());
    assert!(normalize_entry_path(&v("")).is_none());
    assert!(normalize_entry_path(&v("a/..")).is_none());
    assert!(normalize_entry_path(&v("C:\\evil")).is_none());
}

#[test]
fn traversal_entries_are_skipped_not_fatal() {
    let bytes = make_zip(&[
        ("Tmpl-main/", None),
        ("../../etc/evil", Some("boom")),
        ("Tmpl-main/ok.txt", Some("fine")),
        ("/abs.txt", Some("boom")),
    ]);
    let entries = read_archive(bytes).unwrap();
    assert_eq!(entries.len(), 4);
    let plan = plan_extraction(&entries);
    // the two unsafe entries are skipped, the rest is still planned
    assert_eq!(plan.len(), 2);
    for w in plan.iter() {
        assert!(!w.segs.is_empty());
        for seg in w.segs.iter() {
            assert!(!seg.is_empty());
            assert_ne!(seg, &v(".."));
            assert_ne!(seg, &v("."));
            assert!(!seg.contains(&b'/'));
            assert!(!seg.contains(&b'\\'));
            assert!(!seg.contains(&0u8));
        }
    }
    assert_eq!(plan[0].segs, vec![v("Tmpl-main")]);
    assert!(plan[0].is_dir);
    assert_eq!(plan[1].segs, vec![v("Tmpl-main"), v("ok.txt")]);
    assert!(!plan[1].is_dir);
    // byte-identical content for the entry inside the root
    assert_eq!(plan[1].data, v("fine"));
}

#[test]
fn relocation_moves_the_top_directory_and_drops_the_rest() {
    let bytes = make_zip(&[
        ("Tmpl-main/", None),
        ("Tmpl-main/src/", None),
        ("Tmpl-main/src/app.js", Some("app()")),
        ("stray.txt", Some("stale")),
    ]);
    let entries = read_archive(bytes).unwrap();
    let plan = plan_extraction(&entries);
    let moved = relocate(plan, &v("Tmpl-main"), &vec![v("frontend")]).unwrap();
    assert_eq!(moved.len(), 3);
    assert_eq!(moved[0].segs, vec![v("frontend")]);
    assert_eq!(moved[1].segs, vec![v("frontend"), v("src")]);
    assert_eq!(moved[2].segs, vec![v("frontend"), v("src"), v("app.js")]);
    assert_eq!(moved[2].data, v("app()"));
    // an unexpected archive layout is a fatal relocation error
    let bytes2 = make_zip(&[("other/", None), ("other/x", Some("y"))]);
    let entries2 = read_archive(bytes2).unwrap();
    let plan2 = plan_extraction(&entries2);
    assert_eq!(
        relocate(plan2, &v("Tmpl-main"), &vec![v("frontend")]).unwrap_err(),
        ScaffoldError::IoError,
    );
}

#[test]
fn request_derives_location_and_top_directory() {
    let req = ArchiveRequest { owner: v("Acme"), repo: v("Tmpl"), branch: v("main") };
    assert_eq!(
        req.url_bytes(),
        v("https://github.com/Acme/Tmpl/archive/refs/heads/main.zip"),
    );
    assert_eq!(req.top_dir(), v("Tmpl-main"));
}

#[test]
fn pipeline_relocates_and_stamps_the_manifest() {
    let req = ArchiveRequest { owner: v("Acme"), repo: v("Tmpl"), branch: v("main") };
    let bytes = make_zip(&[
        ("Tmpl-main/", None),
        ("Tmpl-main/package.json", Some("{\"name\":\"old\",\"version\":\"0.0.1\",\"extra\":true}")),
        ("Tmpl-main/src/", None),
        ("Tmpl-main/src/app.js", Some("app()")),
        ("../../etc/evil", Some("boom")),
    ]);
    let writes = scaffold_frontend_writes(
        bytes,
        &req.top_dir(),
        &vec![v("frontend")],
        &v("widget"),
        &v("1.2.0"),
        &v("A widget plugin"),
    )
    .unwrap();
    // everything lives under the canonical frontend directory, nothing
    // outside the destination root, and no stale archive file remains
    assert!(!writes.is_empty());
    for w in writes.iter() {
        assert_eq!(w.segs[0], v("frontend"));
        for seg in w.segs.iter() {
            assert_ne!(seg, &v(".."));
            let is_zip = seg.len() >= 4 && &seg[seg.len() - 4..] == b".zip";
            assert!(!is_zip);
        }
    }
    // the relocated manifest carries the stamped fields and keeps the rest
    let manifest = writes
        .iter()
        .find(|w| w.segs == vec![v("frontend"), v("package.json")])
        .unwrap();
    assert!(!manifest.is_dir);
    assert_eq!(
        manifest.data,
        v(
            "{\"name\":\"widget\",\"version\":\"1.2.0\",\"extra\":true,\
             \"description\":\"A widget plugin\"}",
        ),
    );
    // stamping is structural: loading what was written gives it back
    let doc = load(&manifest.data).unwrap();
    assert_eq!(save(&doc), manifest.data);
    // the sibling file went through untouched
    let app = writes
        .iter()
        .find(|w| w.segs == vec![v("frontend"), v("src"), v("app.js")])
        .unwrap();
    assert_eq!(app.data, v("app()"));
}

#[test]
fn decoding_succeeds_exactly_on_archive_bytes() {
    let good = make_zip(&[("a/", None), ("a/x.txt", Some("x"))]);
    let entries = read_archive(good).unwrap();
    assert_eq!(entries.len(), 2);
    assert_eq!(entries[0].name, v("a/"));
    assert_eq!(entries[1].name, v("a/x.txt"));
    assert_eq!(entries[1].data, v("x"));
    assert_eq!(
        read_archive(v("this is not an archive")).unwrap_err(),
        ScaffoldError::ArchiveError,
    );
}

#[test]
fn pipeline_reports_undecodable_archives_and_bad_manifests() {
    let garbage = v("this is not an archive");
    assert_eq!(
        scaffold_frontend_writes(
            garbage,
            &v("Tmpl-main"),
            &vec![v("frontend")],
            &v("w"),
            &v("1"),
            &v("d"),
        )
        .unwrap_err(),
        ScaffoldError::ArchiveError,
    );
    let bytes = make_zip(&[("Tmpl-main/", None), ("Tmpl-main/package.json", Some("{broken"))]);
    assert_eq!(
        scaffold_frontend_writes(
            bytes,
            &v("Tmpl-main"),
            &vec![v("frontend")],
            &v("w"),
            &v("1"),
            &v("d"),
        )
        .unwrap_err(),
        ScaffoldError::ParseError,
    );
    let bytes2 = make_zip(&[("Tmpl-main/", None), ("Tmpl-main/readme.md", Some("hi"))]);
    assert_eq!(
        scaffold_frontend_writes(
            bytes2,
            &v("Tmpl-main"),
            &vec![v("frontend")],
            &v("w"),
            &v("1"),
            &v("d"),
        )
        .unwrap_err(),
        ScaffoldError::IoError,
    );
}
