//! Manifest loading, saving and field-scoped edits.

use chm_scaffold::error::ScaffoldError;
use chm_scaffold::manifest::load;
use chm_scaffold::manifest::save;
use chm_scaffold::manifest::insert_script;
use chm_scaffold::manifest::set_dependency;
use chm_scaffold::manifest::set_library_crate_type;
use chm_scaffold::manifest::set_package_fields;
use chm_scaffold::manifest::DependencySpec;
use chm_scaffold::manifest::PackageFields;

fn v(s: &str) -> Vec<u8> {
    s.as_bytes().to_vec()
}

#[test]
fn round_trip_is_idempotent() {
    let doc_bytes = v(
        "{ \"name\" : \"old\", \"version\": \"0.0.1\", \"n\": -1.5e3, \
         \"arr\": [true, null, \"x\\n\", {}], \"obj\": {\"k\": 0} }",
    );
    let once = save(&load(&doc_bytes).unwrap());
    let twice = save(&load(&once).unwrap());
    assert_eq!(once, twice);
    let thrice = save(&load(&twice).unwrap());
    assert_eq!(twice, thrice);
}

#[test]
fn load_accepts_exactly_the_grammar() {
    assert!(load(&v("{\"a\": [1, 2.5, -3e+2, \"s\"], \"b\": false}")).is_ok());
    assert!(load(&v("  null  ")).is_ok());
    assert_eq!(load(&v("{")).unwrap_err(), ScaffoldError::ParseError);
    assert_eq!(load(&v("")).unwrap_err(), ScaffoldError::ParseError);
    assert_eq!(load(&v("{\"a\":1,}")).unwrap_err(), ScaffoldError::ParseError);
    assert_eq!(load(&v("{\"a\":1} x")).unwrap_err(), ScaffoldError::ParseError);
    // a recurring key is a parse error: the tree keeps one entry per key
    assert_eq!(load(&v("{\"a\":1,\"a\":2}")).unwrap_err(), ScaffoldError::ParseError);
}

#[test]
fn second_dependency_wins() {
    let doc = load(&v("{\"dependencies\":{\"keep\":\"1.0\"}}")).unwrap();
    let first = DependencySpec { location: v("https://a.example/x"), features: Vec::new() };
    let second = DependencySpec { location: v("https://b.example/y"), features: vec![v("fast")] };
    let doc1 = set_dependency(doc, &v("foo"), &first).unwrap();
    let doc2 = set_dependency(doc1, &v("foo"), &second).unwrap();
    let direct = set_dependency(
        load(&v("{\"dependencies\":{\"keep\":\"1.0\"}}")).unwrap(),
        &v("foo"),
        &second,
    )
    .unwrap();
    assert_eq!(save(&doc2), save(&direct));
    let text = save(&doc2);
    let expected = v(
        "{\"dependencies\":{\"keep\":\"1.0\",\
         \"foo\":{\"git\":\"https://b.example/y\",\"features\":[\"fast\"]}}}",
    );
    assert_eq!(text, expected);
}

#[test]
fn dependency_needs_the_table() {
    let doc = load(&v("{\"name\":\"x\"}")).unwrap();
    let dep = DependencySpec { location: v("https://a.example"), features: Vec::new() };
    assert_eq!(set_dependency(doc, &v("foo"), &dep).unwrap_err(), ScaffoldError::SchemaMismatch);
    let doc2 = load(&v("{\"dependencies\":3}")).unwrap();
    assert_eq!(set_dependency(doc2, &v("foo"), &dep).unwrap_err(), ScaffoldError::SchemaMismatch);
}

#[test]
fn missing_field_inserts_or_skips_without_failing() {
    let fields = PackageFields { name: Some(v("foo")), version: None, description: None };
    // package-manifest mode: the absent key is inserted
    let doc = load(&v("{\"version\":\"1.0\"}")).unwrap();
    let (doc2, skipped) = set_package_fields(doc, &fields, true);
    assert_eq!(save(&doc2), v("{\"version\":\"1.0\",\"name\":\"foo\"}"));
    assert!(skipped.is_empty());
    // compatibility mode: the document is unchanged, the key is reported
    let doc = load(&v("{\"version\":\"1.0\"}")).unwrap();
    let (doc3, skipped) = set_package_fields(doc, &fields, false);
    assert_eq!(save(&doc3), v("{\"version\":\"1.0\"}"));
    assert_eq!(skipped, vec![v("name")]);
}

#[test]
fn present_fields_are_overwritten_in_place() {
    let doc = load(&v("{\"name\":\"old\",\"extra\":[1],\"version\":\"0.0.1\"}")).unwrap();
    let fields = PackageFields {
        name: Some(v("widget")),
        version: Some(v("1.2.0")),
        description: Some(v("a widget")),
    };
    let (doc2, skipped) = set_package_fields(doc, &fields, true);
    assert_eq!(
        save(&doc2),
        v("{\"name\":\"widget\",\"extra\":[1],\"version\":\"1.2.0\",\"description\":\"a widget\"}"),
    );
    assert!(skipped.is_empty());
}

#[test]
fn plain_text_is_escaped_on_the_way_in() {
    let doc = load(&v("{}")).unwrap();
    let fields = PackageFields {
        name: Some(v("a\"b\\c\nd")),
        version: None,
        description: None,
    };
    let (doc2, _) = set_package_fields(doc, &fields, true);
    assert_eq!(save(&doc2), v("{\"name\":\"a\\\"b\\\\c\\nd\"}"));
}

#[test]
fn script_entry_inserted_and_overwritten_silently() {
    let doc = load(&v("{\"scripts\":{\"build\":\"tsc\"}}")).unwrap();
    let (doc2, inserted) = insert_script(doc, &v("postbuild"), &v("node scripts/postbuild.js"));
    assert!(inserted);
    assert_eq!(
        save(&doc2),
        v("{\"scripts\":{\"build\":\"tsc\",\"postbuild\":\"node scripts/postbuild.js\"}}"),
    );
    let (doc3, inserted2) = insert_script(doc2, &v("postbuild"), &v("true"));
    assert!(inserted2);
    assert_eq!(save(&doc3), v("{\"scripts\":{\"build\":\"tsc\",\"postbuild\":\"true\"}}"));
}

#[test]
fn script_entry_skipped_without_a_map() {
    let doc = load(&v("{\"name\":\"x\"}")).unwrap();
    let (doc2, inserted) = insert_script(doc, &v("postbuild"), &v("true"));
    assert!(!inserted);
    assert_eq!(save(&doc2), v("{\"name\":\"x\"}"));
}

#[test]
fn library_kind_set_with_section_created_or_preserved() {
    let doc = load(&v("{\"name\":\"x\"}")).unwrap();
    let doc2 = set_library_crate_type(doc, &v("cdylib")).unwrap();
    assert_eq!(save(&doc2), v("{\"name\":\"x\",\"lib\":{\"crate-type\":[\"cdylib\"]}}"));
    let doc3 = load(&v("{\"lib\":{\"path\":\"src/lib.rs\",\"crate-type\":[\"rlib\"]}}")).unwrap();
    let doc4 = set_library_crate_type(doc3, &v("cdylib")).unwrap();
    assert_eq!(save(&doc4), v("{\"lib\":{\"path\":\"src/lib.rs\",\"crate-type\":[\"cdylib\"]}}"));
    let doc5 = load(&v("{\"lib\":4}")).unwrap();
    assert_eq!(
        set_library_crate_type(doc5, &v("cdylib")).unwrap_err(),
        ScaffoldError::SchemaMismatch,
    );
}
