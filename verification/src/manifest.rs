//! Field-scoped edits of manifest documents.
//!
//! A manifest is loaded into the node tree of [`crate::json`], edited by
//! key — one entry of one table at a time, with every sibling entry, the
//! entry order and every untouched token left exactly as they were — and
//! serialized back in the tree's canonical compact form: saving
//! normalizes the whitespace between tokens once and is from then on
//! byte-identical across round trips.  Plain caller-supplied text (a
//! module name, a version, a command line) is escaped on its way into the
//! tree, so every edit preserves well-formedness of the document.

use vstd::prelude::*;

use crate::error::ScaffoldError;
use crate::json::Json;
use crate::json::JsonV;
use crate::json::jv;
use crate::json::jv_pairs;
use crate::json::jv_list;
use crate::json::lemma_jv_pairs_points;
use crate::json::lemma_jv_list_points;
use crate::json::obj_has;
use crate::json::parse_doc;
use crate::json::scan_body;
use crate::json::ser_doc;
use crate::json::unique_keys;
use crate::json::valid_body;
use crate::json::wf;
use crate::jsontext::parse_document;
use crate::jsontext::render;
use crate::bytestr::bytes_eq;

verus! {

// ---------------------------------------------------------------------
// The well-known keys of the manifests this scaffold edits.
// ---------------------------------------------------------------------

/// The key of the dependency table: `dependencies`.
pub open spec fn dep_key() -> Seq<u8> {
    seq![100u8, 101u8, 112u8, 101u8, 110u8, 100u8, 101u8, 110u8, 99u8, 105u8, 101u8, 115u8]
}

/// The key of the library section: `lib`.
pub open spec fn lib_key() -> Seq<u8> {
    seq![108u8, 105u8, 98u8]
}

/// The key of the library output-kind list: `crate-type`.
pub open spec fn crate_type_key() -> Seq<u8> {
    seq![99u8, 114u8, 97u8, 116u8, 101u8, 45u8, 116u8, 121u8, 112u8, 101u8]
}

/// The key of the script map: `scripts`.
pub open spec fn scripts_key() -> Seq<u8> {
    seq![115u8, 99u8, 114u8, 105u8, 112u8, 116u8, 115u8]
}

/// The package name key: `name`.
pub open spec fn name_key() -> Seq<u8> {
    seq![110u8, 97u8, 109u8, 101u8]
}

/// The package version key: `version`.
pub open spec fn version_key() -> Seq<u8> {
    seq![118u8, 101u8, 114u8, 115u8, 105u8, 111u8, 110u8]
}

/// The package description key: `description`.
pub open spec fn description_key() -> Seq<u8> {
    seq![100u8, 101u8, 115u8, 99u8, 114u8, 105u8, 112u8, 116u8, 105u8, 111u8, 110u8]
}

/// The source-location key of a dependency entry: `git`.
pub open spec fn git_key() -> Seq<u8> {
    seq![103u8, 105u8, 116u8]
}

/// The feature-list key of a dependency entry: `features`.
pub open spec fn features_key() -> Seq<u8> {
    seq![102u8, 101u8, 97u8, 116u8, 117u8, 114u8, 101u8, 115u8]
}

/// The bytes of `dependencies`.
pub fn dep_key_bytes() -> (r: Vec<u8>)
    ensures
        r@ == dep_key(),
{
    let v: Vec<u8> = vec![100, 101, 112, 101, 110, 100, 101, 110, 99, 105, 101, 115];
    assert(v@ =~= dep_key());
    v
}

/// The bytes of `lib`.
pub fn lib_key_bytes() -> (r: Vec<u8>)
    ensures
        r@ == lib_key(),
{
    let v: Vec<u8> = vec![108, 105, 98];
    assert(v@ =~= lib_key());
    v
}

/// The bytes of `crate-type`.
pub fn crate_type_key_bytes() -> (r: Vec<u8>)
    ensures
        r@ == crate_type_key(),
{
    let v: Vec<u8> = vec![99, 114, 97, 116, 101, 45, 116, 121, 112, 101];
    assert(v@ =~= crate_type_key());
    v
}

/// The bytes of `scripts`.
pub fn scripts_key_bytes() -> (r: Vec<u8>)
    ensures
        r@ == scripts_key(),
{
    let v: Vec<u8> = vec![115, 99, 114, 105, 112, 116, 115];
    assert(v@ =~= scripts_key());
    v
}

/// The bytes of `name`.
pub fn name_key_bytes() -> (r: Vec<u8>)
    ensures
        r@ == name_key(),
{
    let v: Vec<u8> = vec![110, 97, 109, 101];
    assert(v@ =~= name_key());
    v
}

/// The bytes of `version`.
pub fn version_key_bytes() -> (r: Vec<u8>)
    ensures
        r@ == version_key(),
{
    let v: Vec<u8> = vec![118, 101, 114, 115, 105, 111, 110];
    assert(v@ =~= version_key());
    v
}

/// The bytes of `description`.
pub fn description_key_bytes() -> (r: Vec<u8>)
    ensures
        r@ == description_key(),
{
    let v: Vec<u8> = vec![100, 101, 115, 99, 114, 105, 112, 116, 105, 111, 110];
    assert(v@ =~= description_key());
    v
}

/// The bytes of `git`.
pub fn git_key_bytes() -> (r: Vec<u8>)
    ensures
        r@ == git_key(),
{
    let v: Vec<u8> = vec![103, 105, 116];
    assert(v@ =~= git_key());
    v
}

/// The bytes of `features`.
pub fn features_key_bytes() -> (r: Vec<u8>)
    ensures
        r@ == features_key(),
{
    let v: Vec<u8> = vec![102, 101, 97, 116, 117, 114, 101, 115];
    assert(v@ =~= features_key());
    v
}

// ---------------------------------------------------------------------
// Escaping plain text into a string body.
// ---------------------------------------------------------------------

/// The hexadecimal digit of a value below sixteen, in lower case.
pub open spec fn hex_digit(x: u8) -> u8 {
    if x < 10 {
        (48 + x) as u8
    } else {
        (87 + x) as u8
    }
}

/// The escaped form of one plain byte.
pub open spec fn esc1(b: u8) -> Seq<u8> {
    if b == 34 {
        seq![92u8, 34u8]
    } else if b == 92 {
        seq![92u8, 92u8]
    } else if b == 10 {
        seq![92u8, 110u8]
    } else if b == 13 {
        seq![92u8, 114u8]
    } else if b == 9 {
        seq![92u8, 116u8]
    } else if b < 32 {
        seq![92u8, 117u8, 48u8, 48u8, hex_digit(b / 16), hex_digit(b % 16)]
    } else {
        seq![b]
    }
}

/// The escaped form of plain text: each byte in turn.
pub open spec fn esc(p: Seq<u8>) -> Seq<u8>
    decreases p.len(),
{
    if p.len() == 0 {
        Seq::empty()
    } else {
        esc(p.drop_last()) + esc1(p.last())
    }
}

/// A body made of ordinary bytes — no quote, no backslash, nothing below
/// space — is well formed.
pub proof fn lemma_ordinary_valid_body(r: Seq<u8>)
    requires
        forall|i: int| 0 <= i < r.len() ==> 32 <= #[trigger] r[i] && r[i] != 34 && r[i] != 92,
    ensures
        valid_body(r),
    decreases r.len(),
{
    if r.len() == 0 {
        assert(r + seq![34u8] =~= seq![34u8]);
    } else {
        lemma_ordinary_valid_body(r.skip(1));
        assert((r + seq![34u8]).skip(1) =~= r.skip(1) + seq![34u8]);
    }
}

/// Appending one well-formed body to another gives a well-formed body.
pub proof fn lemma_valid_body_concat(a: Seq<u8>, c: Seq<u8>)
    requires
        valid_body(a),
        valid_body(c),
    ensures
        valid_body(a + c),
    decreases a.len(),
{
    let t = a + seq![34u8];
    let u = a + c + seq![34u8];
    if a.len() == 0 {
        assert(a + c =~= c);
    } else {
        assert(t[0] == a[0]);
        assert(u[0] == a[0]);
        if a[0] == 34 {
            assert(scan_body(t) == Some(0int));
            assert(false);
        } else if a[0] == 92 {
            if t.len() >= 2 && crate::json::is_simple_esc(t[1]) {
                assert(scan_body(t.skip(2)) == Some(a.len() - 2));
                assert(t.skip(2) =~= a.skip(2) + seq![34u8]);
                assert(valid_body(a.skip(2)));
                lemma_valid_body_concat(a.skip(2), c);
                assert(u.skip(2) =~= a.skip(2) + c + seq![34u8]);
                assert(u[1] == a[1]);
            } else if t.len() >= 6 && t[1] == 117 && crate::json::is_hex(t[2])
                && crate::json::is_hex(t[3]) && crate::json::is_hex(t[4]) && crate::json::is_hex(
                t[5],
            ) {
                assert(scan_body(t.skip(6)) == Some(a.len() - 6));
                assert(a.len() >= 6);
                assert(t.skip(6) =~= a.skip(6) + seq![34u8]);
                assert(valid_body(a.skip(6)));
                lemma_valid_body_concat(a.skip(6), c);
                assert(u.skip(6) =~= a.skip(6) + c + seq![34u8]);
                assert(u[1] == a[1] && u[2] == a[2] && u[3] == a[3] && u[4] == a[4] && u[5]
                    == a[5]);
                assert(u.len() >= 6);
            } else {
                assert(scan_body(t) is None);
                assert(false);
            }
        } else if a[0] < 32 {
            assert(scan_body(t) is None);
            assert(false);
        } else {
            assert(scan_body(t.skip(1)) == Some(a.len() - 1));
            assert(t.skip(1) =~= a.skip(1) + seq![34u8]);
            assert(valid_body(a.skip(1)));
            lemma_valid_body_concat(a.skip(1), c);
            assert(u.skip(1) =~= a.skip(1) + c + seq![34u8]);
        }
    }
}

/// The escape of one byte is a well-formed body.
pub proof fn lemma_esc1_valid(b: u8)
    ensures
        valid_body(esc1(b)),
{
    if b == 34 || b == 92 || b == 10 || b == 13 || b == 9 {
        assert((esc1(b) + seq![34u8]).len() == 3);
        assert(scan_body(esc1(b) + seq![34u8]) == Some(2int)) by {
            let t = esc1(b) + seq![34u8];
            assert(t.len() == 3);
            assert(t[0] == 92 && crate::json::is_simple_esc(t[1]));
            assert(t.skip(2) =~= seq![34u8]);
            assert(scan_body(seq![34u8]) == Some(0int));
        }
    } else if b < 32 {
        let t = esc1(b) + seq![34u8];
        assert(scan_body(t) == Some(6int)) by {
            assert(t.len() == 7);
            assert(t[0] == 92 && t[1] == 117);
            assert(t[2] == 48 && t[3] == 48);
            assert(t[4] == hex_digit(b / 16) && t[5] == hex_digit(b % 16));
            assert(crate::json::is_hex(48u8));
            assert(crate::json::is_hex(hex_digit(b / 16)));
            assert(crate::json::is_hex(hex_digit(b % 16)));
            assert(t.skip(6) =~= seq![34u8]);
            assert(scan_body(seq![34u8]) == Some(0int));
        }
    } else {
        lemma_ordinary_valid_body(esc1(b));
    }
}

/// The escape of plain text is a well-formed body.
pub proof fn lemma_esc_valid(p: Seq<u8>)
    ensures
        valid_body(esc(p)),
    decreases p.len(),
{
    if p.len() == 0 {
        assert(esc(p) + seq![34u8] =~= seq![34u8]);
    } else {
        lemma_esc_valid(p.drop_last());
        lemma_esc1_valid(p.last());
        lemma_valid_body_concat(esc(p.drop_last()), esc1(p.last()));
    }
}

/// Escapes plain text into a string body.
pub fn escape(p: &Vec<u8>) -> (r: Vec<u8>)
    ensures
        r@ == esc(p@),
        valid_body(r@),
{
    let n = p.len();
    let mut out: Vec<u8> = Vec::new();
    let mut i: usize = 0;
    while i < n
        invariant
            0 <= i <= n,
            n == p@.len(),
            out@ == esc(p@.take(i as int)),
        decreases n - i,
    {
        let b = p[i];
        if b == 34 {
            out.push(92);
            out.push(34);
        } else if b == 92 {
            out.push(92);
            out.push(92);
        } else if b == 10 {
            out.push(92);
            out.push(110);
        } else if b == 13 {
            out.push(92);
            out.push(114);
        } else if b == 9 {
            out.push(92);
            out.push(116);
        } else if b < 32 {
            out.push(92);
            out.push(117);
            out.push(48);
            out.push(48);
            let hi = b / 16;
            let lo = b % 16;
            out.push(if hi < 10 { 48 + hi } else { 87 + hi });
            out.push(if lo < 10 { 48 + lo } else { 87 + lo });
        } else {
            out.push(b);
        }
        proof {
            assert(p@.take(i + 1).drop_last() =~= p@.take(i as int));
            assert(p@.take(i + 1).last() == p@[i as int]);
            assert(out@ =~= esc(p@.take(i as int)) + esc1(p@[i as int]));
        }
        i = i + 1;
    }
    assert(p@.take(n as int) =~= p@);
    proof {
        lemma_esc_valid(p@);
    }
    out
}

// ---------------------------------------------------------------------
// The one table edit all patches share.
// ---------------------------------------------------------------------

/// The index of the entry under `k`; meaningful only where [`obj_has`]
/// holds.
pub open spec fn key_idx(m: Seq<(Seq<u8>, JsonV)>, k: Seq<u8>) -> int {
    choose|i: int| 0 <= i < m.len() && (#[trigger] m[i]).0 == k
}

/// Insert-or-overwrite of one table entry: the entry under `k`, if any,
/// gets the value `v` in place; otherwise a new entry is appended.  No
/// other entry moves or changes.
pub open spec fn obj_set(m: Seq<(Seq<u8>, JsonV)>, k: Seq<u8>, v: JsonV) -> Seq<(Seq<u8>, JsonV)> {
    if obj_has(m, k) {
        m.update(key_idx(m, k), (k, v))
    } else {
        m.push((k, v))
    }
}

/// The entry a table holds under `k`; meaningful only where [`obj_has`]
/// holds.
pub open spec fn obj_get(m: Seq<(Seq<u8>, JsonV)>, k: Seq<u8>) -> JsonV {
    m[key_idx(m, k)].1
}

/// [`obj_set`] preserves well-formedness of the table.
pub proof fn lemma_obj_set_wf(m: Seq<(Seq<u8>, JsonV)>, k: Seq<u8>, v: JsonV)
    requires
        wf(JsonV::Obj(m)),
        valid_body(k),
        wf(v),
    ensures
        wf(JsonV::Obj(obj_set(m, k, v))),
{
    let m2 = obj_set(m, k, v);
    if obj_has(m, k) {
        let i = key_idx(m, k);
        assert(0 <= i < m.len() && m[i].0 == k);
        assert(unique_keys(m2)) by {
            assert(forall|q: int| 0 <= q < m2.len() && q != i ==> m2[q] == m[q]);
        }
        assert(forall|q: int| 0 <= q < m2.len() ==> valid_body((#[trigger] m2[q]).0) && wf(m2[q].1));
    } else {
        assert(forall|q: int| 0 <= q < m.len() ==> (#[trigger] m[q]).0 != k);
        assert(unique_keys(m2)) by {
            assert(forall|q: int| 0 <= q < m.len() ==> m2[q] == m[q]);
            assert(m2[m.len() as int].0 == k);
        }
        assert(forall|q: int| 0 <= q < m2.len() ==> valid_body((#[trigger] m2[q]).0) && wf(m2[q].1));
    }
}

/// After [`obj_set`], the table holds exactly one entry under `k`, and it
/// holds `v`; every entry under another key is exactly where it was.
pub proof fn lemma_obj_set_points(m: Seq<(Seq<u8>, JsonV)>, k: Seq<u8>, v: JsonV)
    requires
        unique_keys(m),
    ensures
        unique_keys(obj_set(m, k, v)),
        obj_has(obj_set(m, k, v), k),
        obj_get(obj_set(m, k, v), k) == v,
        obj_set(m, k, v).len() == if obj_has(m, k) {
            m.len()
        } else {
            m.len() + 1
        },
        forall|q: int|
            0 <= q < obj_set(m, k, v).len() && (#[trigger] obj_set(m, k, v)[q]).0 != k ==> q
                < m.len() && obj_set(m, k, v)[q] == m[q],
{
    let m2 = obj_set(m, k, v);
    if obj_has(m, k) {
        let i = key_idx(m, k);
        assert(0 <= i < m.len() && m[i].0 == k);
        assert(forall|q: int| 0 <= q < m2.len() && q != i ==> m2[q] == m[q]);
        assert(m2[i] == (k, v));
        assert(unique_keys(m2));
        assert(m2[key_idx(m2, k)].0 == k);
        assert(key_idx(m2, k) == i);
    } else {
        assert(forall|q: int| 0 <= q < m.len() ==> (#[trigger] m[q]).0 != k);
        assert(forall|q: int| 0 <= q < m.len() ==> m2[q] == m[q]);
        assert(m2[m.len() as int] == (k, v));
        assert(unique_keys(m2));
        assert(key_idx(m2, k) == m.len());
    }
}

/// Applies [`obj_set`] to an executable entry list.
#[verifier::loop_isolation(false)]
pub fn pairs_set(pairs: Vec<(Vec<u8>, Json)>, k: Vec<u8>, v: Json) -> (r: Vec<(Vec<u8>, Json)>)
    requires
        unique_keys(jv_pairs(pairs@)),
    ensures
        jv_pairs(r@) == obj_set(jv_pairs(pairs@), k@, jv(v)),
{
    proof {
        lemma_jv_pairs_points(pairs@);
    }
    let ghost p0 = pairs@;
    let ghost m = jv_pairs(pairs@);
    let n = pairs.len();
    let mut i: usize = 0;
    let mut work = pairs;
    while i < n
        invariant
            0 <= i <= n,
            n == p0.len(),
            work@ == p0,
            m == jv_pairs(p0),
            m.len() == n,
            unique_keys(m),
            forall|q: int| 0 <= q < n ==> (#[trigger] m[q]) == (p0[q].0@, jv(p0[q].1)),
            forall|q: int| 0 <= q < i ==> (#[trigger] m[q]).0 != k@,
        decreases n - i,
    {
        if bytes_eq(&work[i].0, &k) {
            assert(m[i as int].0 == k@);
            assert(obj_has(m, k@));
            proof {
                assert(forall|q: int|
                    0 <= q < m.len() && q != i ==> (#[trigger] m[q]).0 != k@);
                assert(key_idx(m, k@) == i);
            }
            work.remove(i);
            work.insert(i, (k, v));
            proof {
                assert(work@ =~= p0.update(i as int, (k, v)));
                lemma_jv_pairs_points(work@);
                assert(jv_pairs(work@) =~= m.update(i as int, (k@, jv(v))));
                assert(obj_set(m, k@, jv(v)) == m.update(i as int, (k@, jv(v))));
                assert(jv_pairs(work@) == obj_set(m, k@, jv(v)));
            }
            return work;
        }
        i = i + 1;
    }
    assert(!obj_has(m, k@));
    work.push((k, v));
    proof {
        lemma_jv_pairs_points(work@);
        assert(work@ =~= p0.push((k, v)));
        assert(jv_pairs(work@) =~= m.push((k@, jv(v))));
        assert(jv_pairs(work@) == obj_set(m, k@, jv(v)));
    }
    work
}

// ---------------------------------------------------------------------
// Loading and saving.
// ---------------------------------------------------------------------

/// Parses manifest text into a document.  Succeeds exactly on the texts
/// the grammar accepts, and returns exactly the node the grammar assigns.
pub fn load(bytes: &Vec<u8>) -> (r: Result<Json, ScaffoldError>)
    ensures
        r is Ok <==> parse_doc(bytes@) is Some,
        r is Ok ==> Some(jv(r->Ok_0)) == parse_doc(bytes@) && wf(jv(r->Ok_0)),
        r is Err ==> r->Err_0 == ScaffoldError::ParseError,
{
    match parse_document(bytes) {
        Some(j) => {
            proof {
                crate::roundtrip::lemma_parse_doc_wf(bytes@);
            }
            Ok(j)
        },
        None => Err(ScaffoldError::ParseError),
    }
}

/// Serializes a document back to manifest text, in the canonical compact
/// form: every token of every untouched node verbatim and in order, with
/// the whitespace between tokens normalized away.
pub fn save(doc: &Json) -> (r: Vec<u8>)
    ensures
        r@ == ser_doc(jv(*doc)),
{
    render(doc)
}

// ---------------------------------------------------------------------
// Finding an entry.
// ---------------------------------------------------------------------

/// The index of the entry under `k`, if the table holds one.
fn find_key(pairs: &Vec<(Vec<u8>, Json)>, k: &Vec<u8>) -> (r: Option<usize>)
    ensures
        match r {
            Some(i) => {
                &&& i < pairs@.len()
                &&& pairs@[i as int].0@ == k@
                &&& obj_has(jv_pairs(pairs@), k@)
                &&& (unique_keys(jv_pairs(pairs@)) ==> key_idx(jv_pairs(pairs@), k@) == i)
            },
            None => !obj_has(jv_pairs(pairs@), k@),
        },
{
    proof {
        lemma_jv_pairs_points(pairs@);
    }
    let ghost m = jv_pairs(pairs@);
    let n = pairs.len();
    let mut i: usize = 0;
    while i < n
        invariant
            0 <= i <= n,
            n == pairs@.len(),
            m == jv_pairs(pairs@),
            m.len() == n,
            forall|q: int| 0 <= q < n ==> (#[trigger] m[q]) == (pairs@[q].0@, jv(pairs@[q].1)),
            forall|q: int| 0 <= q < i ==> (#[trigger] m[q]).0 != k@,
        decreases n - i,
    {
        if bytes_eq(&pairs[i].0, &k) {
            proof {
                assert(m[i as int].0 == k@);
                if unique_keys(m) {
                    assert(forall|q: int|
                        0 <= q < m.len() && q != i ==> (#[trigger] m[q]).0 != k@);
                    assert(m[key_idx(m, k@)].0 == k@);
                }
            }
            return Some(i);
        }
        i = i + 1;
    }
    assert(!obj_has(m, k@));
    None
}

// ---------------------------------------------------------------------
// Dependency entries.
// ---------------------------------------------------------------------

/// A dependency to insert: where it comes from, and which of its
/// features to ask for.
pub struct DependencySpec {
    /// The source location (a remote URL), as plain text.
    pub location: Vec<u8>,
    /// The feature names, as plain text; may be empty.
    pub features: Vec<Vec<u8>>,
}

/// The array of feature-name nodes of a dependency entry.
pub open spec fn feat_nodes(feats: Seq<Seq<u8>>) -> Seq<JsonV>
    decreases feats.len(),
{
    if feats.len() == 0 {
        Seq::empty()
    } else {
        feat_nodes(feats.drop_last()).push(JsonV::Str(esc(feats.last())))
    }
}

/// The feature-name nodes, entry by entry.
pub proof fn lemma_feat_nodes_points(feats: Seq<Seq<u8>>)
    ensures
        feat_nodes(feats).len() == feats.len(),
        forall|q: int|
            0 <= q < feats.len() ==> #[trigger] feat_nodes(feats)[q] == JsonV::Str(esc(feats[q])),
    decreases feats.len(),
{
    if feats.len() > 0 {
        lemma_feat_nodes_points(feats.drop_last());
        assert(forall|q: int|
            0 <= q < feats.len() - 1 ==> #[trigger] feats.drop_last()[q] == feats[q]);
    }
}

/// The node a dependency is written as: a table with the source location
/// under `git`, and, where features are named, the feature array.
pub open spec fn dep_node(loc: Seq<u8>, feats: Seq<Seq<u8>>) -> JsonV {
    if feats.len() == 0 {
        JsonV::Obj(seq![(git_key(), JsonV::Str(esc(loc)))])
    } else {
        JsonV::Obj(
            seq![
                (git_key(), JsonV::Str(esc(loc))),
                (features_key(), JsonV::Arr(feat_nodes(feats))),
            ],
        )
    }
}

/// A dependency node is well formed.
pub proof fn lemma_dep_node_wf(loc: Seq<u8>, feats: Seq<Seq<u8>>)
    ensures
        wf(dep_node(loc, feats)),
{
    lemma_esc_valid(loc);
    lemma_ordinary_valid_body(git_key());
    lemma_ordinary_valid_body(features_key());
    lemma_feat_nodes_points(feats);
    assert forall|q: int| 0 <= q < feat_nodes(feats).len() implies wf(
        #[trigger] feat_nodes(feats)[q],
    ) by {
        lemma_esc_valid(feats[q]);
    }
    if feats.len() == 0 {
        let m = dep_node(loc, feats)->Obj_0;
        assert(m.len() == 1);
        assert(m[0] == (git_key(), JsonV::Str(esc(loc))));
        assert(unique_keys(m));
        assert(forall|q: int|
            0 <= q < m.len() ==> valid_body((#[trigger] m[q]).0) && wf(m[q].1));
    } else {
        let m = dep_node(loc, feats)->Obj_0;
        assert(m.len() == 2);
        assert(m[0] == (git_key(), JsonV::Str(esc(loc))));
        assert(m[1] == (features_key(), JsonV::Arr(feat_nodes(feats))));
        assert(git_key()[0] != features_key()[0]);
        assert(unique_keys(m));
        assert(wf(JsonV::Arr(feat_nodes(feats))));
        assert(forall|q: int|
            0 <= q < m.len() ==> valid_body((#[trigger] m[q]).0) && wf(m[q].1));
    }
}

/// Builds the node of a dependency.
fn dep_node_exec(dep: &DependencySpec) -> (r: Json)
    ensures
        jv(r) == dep_node(dep.location@, dep.features.deep_view()),
        wf(jv(r)),
{
    let ghost feats = dep.features.deep_view();
    proof {
        assert forall|q: int| 0 <= q < dep.features@.len() implies #[trigger] feats[q]
            == dep.features@[q]@ by {
            assert(dep.features@[q].deep_view() =~= dep.features@[q]@);
        }
        lemma_dep_node_wf(dep.location@, feats);
        lemma_feat_nodes_points(feats);
    }
    let gk = git_key_bytes();
    let loc = escape(&dep.location);
    let mut entries: Vec<(Vec<u8>, Json)> = Vec::new();
    entries.push((gk, Json::Str(loc)));
    if dep.features.len() == 0 {
        let r = Json::Obj(entries);
        proof {
            lemma_jv_pairs_points(entries@);
            assert(jv_pairs(entries@) =~= seq![(git_key(), JsonV::Str(esc(dep.location@)))]);
        }
        r
    } else {
        let nf = dep.features.len();
        let mut items: Vec<Json> = Vec::new();
        let mut i: usize = 0;
        while i < nf
            invariant
                0 <= i <= nf,
                nf == dep.features@.len(),
                feats == dep.features.deep_view(),
                feats.len() == nf,
                forall|q: int| 0 <= q < nf ==> #[trigger] feats[q] == dep.features@[q]@,
                items@.len() == i,
                forall|q: int|
                    0 <= q < i ==> jv(#[trigger] items@[q]) == JsonV::Str(esc(feats[q])),
            decreases nf - i,
        {
            let body = escape(&dep.features[i]);
            items.push(Json::Str(body));
            i = i + 1;
        }
        let fk = features_key_bytes();
        entries.push((fk, Json::Arr(items)));
        let r = Json::Obj(entries);
        proof {
            lemma_jv_pairs_points(entries@);
            lemma_jv_list_points(items@);
            lemma_feat_nodes_points(feats);
            assert(jv_list(items@) =~= feat_nodes(feats));
            assert(jv_pairs(entries@) =~= seq![
                (git_key(), JsonV::Str(esc(dep.location@))),
                (features_key(), JsonV::Arr(feat_nodes(feats))),
            ]);
        }
        r
    }
}

/// The dependency patch: insert-or-overwrite exactly one entry under the
/// dependency table, or nothing where the table is absent or not a table.
pub open spec fn dep_patch(d: JsonV, name: Seq<u8>, loc: Seq<u8>, feats: Seq<Seq<u8>>) -> Option<
    JsonV,
> {
    match d {
        JsonV::Obj(m) => if obj_has(m, dep_key()) && obj_get(m, dep_key()) is Obj {
            Some(
                JsonV::Obj(
                    obj_set(
                        m,
                        dep_key(),
                        JsonV::Obj(
                            obj_set(obj_get(m, dep_key())->Obj_0, esc(name), dep_node(loc, feats)),
                        ),
                    ),
                ),
            )
        } else {
            None
        },
        _ => None,
    }
}

/// Inserts or overwrites exactly one entry of the dependency table; every
/// other entry of the document is left exactly as it was.  Fails with
/// `SchemaMismatch` exactly where the document is not a table or has no
/// dependency table.
pub fn set_dependency(doc: Json, name: &Vec<u8>, dep: &DependencySpec) -> (r: Result<
    Json,
    ScaffoldError,
>)
    requires
        wf(jv(doc)),
    ensures
        match r {
            Ok(d2) => Some(jv(d2)) == dep_patch(
                jv(doc),
                name@,
                dep.location@,
                dep.features.deep_view(),
            ) && wf(jv(d2)),
            Err(e) => e == ScaffoldError::SchemaMismatch && dep_patch(
                jv(doc),
                name@,
                dep.location@,
                dep.features.deep_view(),
            ) is None,
        },
{
    let ghost d0 = jv(doc);
    match doc {
        Json::Obj(pairs) => {
            let ghost p0 = pairs@;
            let ghost m = jv_pairs(p0);
            proof {
                lemma_jv_pairs_points(p0);
            }
            let kb = dep_key_bytes();
            match find_key(&pairs, &kb) {
                None => Err(ScaffoldError::SchemaMismatch),
                Some(i) => {
                    let mut pairs = pairs;
                    let pair = pairs.remove(i);
                    let kk = pair.0;
                    match pair.1 {
                        Json::Obj(inner) => {
                            proof {
                                assert(m[i as int] == (p0[i as int].0@, jv(p0[i as int].1)));
                                assert(obj_get(m, dep_key()) == jv(Json::Obj(inner)));
                            }
                            let namebody = escape(name);
                            let node = dep_node_exec(dep);
                            proof {
                                assert(wf(m[i as int].1));
                                assert(unique_keys(jv_pairs(inner@)));
                                lemma_esc_valid(name@);
                                lemma_obj_set_wf(
                                    jv_pairs(inner@),
                                    esc(name@),
                                    jv(node),
                                );
                            }
                            let inner2 = pairs_set(inner, namebody, node);
                            let mut pairs2 = pairs;
                            pairs2.insert(i, (kk, Json::Obj(inner2)));
                            proof {
                                assert(pairs2@ =~= p0.update(i as int, (kk, Json::Obj(inner2))));
                                lemma_jv_pairs_points(pairs2@);
                                assert(kk@ == dep_key());
                                assert(jv_pairs(pairs2@) =~= m.update(
                                    i as int,
                                    (dep_key(), jv(Json::Obj(inner2))),
                                ));
                                assert(key_idx(m, dep_key()) == i);
                                assert(jv_pairs(pairs2@) == obj_set(
                                    m,
                                    dep_key(),
                                    jv(Json::Obj(inner2)),
                                ));
                                lemma_ordinary_valid_body(dep_key());
                                lemma_obj_set_wf(jv_pairs(inner@), esc(name@), jv(node));
                                lemma_obj_set_wf(m, dep_key(), jv(Json::Obj(inner2)));
                            }
                            Ok(Json::Obj(pairs2))
                        },
                        other => {
                            proof {
                                assert(m[i as int] == (p0[i as int].0@, jv(p0[i as int].1)));
                                assert(obj_get(m, dep_key()) == jv(other));
                                assert(!(obj_get(m, dep_key()) is Obj));
                            }
                            Err(ScaffoldError::SchemaMismatch)
                        },
                    }
                },
            }
        },
        _ => Err(ScaffoldError::SchemaMismatch),
    }
}

// ---------------------------------------------------------------------
// Package fields.
// ---------------------------------------------------------------------

/// The provided package fields of one patch: each is plain text.
pub struct PackageFields {
    /// The package name, where given.
    pub name: Option<Vec<u8>>,
    /// The package version, where given.
    pub version: Option<Vec<u8>>,
    /// The package description, where given.
    pub description: Option<Vec<u8>>,
}

/// The view of an optional plain-text value.
pub open spec fn opt_view(o: Option<Vec<u8>>) -> Option<Seq<u8>> {
    match o {
        Option::None => None,
        Option::Some(v) => Some(v@),
    }
}

/// One field patch: where the value is given and the document is a table,
/// the entry under `key` is overwritten, or — with `ins` — inserted when
/// absent; in every other case the document is unchanged.
pub open spec fn set_field(d: JsonV, key: Seq<u8>, pv: Option<Seq<u8>>, ins: bool) -> JsonV {
    match pv {
        Option::None => d,
        Option::Some(p) => match d {
            JsonV::Obj(m) => if obj_has(m, key) || ins {
                JsonV::Obj(obj_set(m, key, JsonV::Str(esc(p))))
            } else {
                d
            },
            _ => d,
        },
    }
}

/// Whether one field patch is skipped with a notice instead of applied.
pub open spec fn field_skipped(d: JsonV, key: Seq<u8>, pv: Option<Seq<u8>>, ins: bool) -> bool {
    pv is Some && !(d is Obj && (obj_has(d->Obj_0, key) || ins))
}

/// The three package-field patches, in the fixed order name, version,
/// description.
pub open spec fn pkg_patch(
    d: JsonV,
    name: Option<Seq<u8>>,
    version: Option<Seq<u8>>,
    description: Option<Seq<u8>>,
    ins: bool,
) -> JsonV {
    set_field(
        set_field(set_field(d, name_key(), name, ins), version_key(), version, ins),
        description_key(),
        description,
        ins,
    )
}

/// The keys skipped by the three package-field patches.
pub open spec fn pkg_skipped(
    d: JsonV,
    name: Option<Seq<u8>>,
    version: Option<Seq<u8>>,
    description: Option<Seq<u8>>,
    ins: bool,
) -> Seq<Seq<u8>> {
    (if field_skipped(d, name_key(), name, ins) {
        seq![name_key()]
    } else {
        Seq::empty()
    }) + (if field_skipped(d, version_key(), version, ins) {
        seq![version_key()]
    } else {
        Seq::empty()
    }) + (if field_skipped(d, description_key(), description, ins) {
        seq![description_key()]
    } else {
        Seq::empty()
    })
}

/// A field patch never changes what kind of node the document is, and it
/// touches no entry under another key.
pub proof fn lemma_set_field_shape(d: JsonV, key: Seq<u8>, pv: Option<Seq<u8>>, ins: bool)
    requires
        d is Obj ==> unique_keys(d->Obj_0),
    ensures
        set_field(d, key, pv, ins) is Obj <==> d is Obj,
        d is Obj ==> forall|k2: Seq<u8>|
            k2 != key ==> (#[trigger] obj_has(set_field(d, key, pv, ins)->Obj_0, k2) == obj_has(
                d->Obj_0,
                k2,
            )),
{
    if pv is Some && d is Obj {
        let m = d->Obj_0;
        let p = pv->Some_0;
        if obj_has(m, key) || ins {
            lemma_obj_set_points(m, key, JsonV::Str(esc(p)));
            let m2 = obj_set(m, key, JsonV::Str(esc(p)));
            assert forall|k2: Seq<u8>| k2 != key implies (#[trigger] obj_has(m2, k2) == obj_has(
                m,
                k2,
            )) by {
                if obj_has(m2, k2) {
                    let q = choose|q: int| 0 <= q < m2.len() && (#[trigger] m2[q]).0 == k2;
                    assert(m2[q].0 != key);
                    assert(m2[q] == m[q]);
                }
                if obj_has(m, k2) {
                    let q = choose|q: int| 0 <= q < m.len() && (#[trigger] m[q]).0 == k2;
                    if obj_has(m, key) {
                        assert(q != key_idx(m, key));
                        assert(m2[q] == m[q]);
                    } else {
                        assert(m2[q] == m[q]);
                    }
                }
            }
        }
    }
}

/// Applies one field patch.
fn set_field_exec(doc: Json, key: Vec<u8>, value: &Option<Vec<u8>>, ins: bool) -> (r: (Json, bool))
    requires
        wf(jv(doc)),
        valid_body(key@),
    ensures
        jv(r.0) == set_field(jv(doc), key@, opt_view(*value), ins),
        wf(jv(r.0)),
        r.1 == field_skipped(jv(doc), key@, opt_view(*value), ins),
{
    let ghost d0 = jv(doc);
    match value {
        Option::None => (doc, false),
        Option::Some(pv) => {
            match doc {
                Json::Obj(pairs) => {
                    let ghost m = jv_pairs(pairs@);
                    let present = crate::jsontext::has_key(&pairs, &key);
                    if present || ins {
                        proof {
                            lemma_esc_valid(pv@);
                            lemma_obj_set_wf(m, key@, JsonV::Str(esc(pv@)));
                        }
                        let body = escape(pv);
                        let p2 = pairs_set(pairs, key, Json::Str(body));
                        (Json::Obj(p2), false)
                    } else {
                        (Json::Obj(pairs), true)
                    }
                },
                other => (other, true),
            }
        },
    }
}

/// Overwrites the given package fields where their keys exist; where a
/// key is absent, inserts it (`insert_missing`) or skips it with a
/// notice, but never fails.  Returns the patched document and the list of
/// skipped keys.
pub fn set_package_fields(doc: Json, fields: &PackageFields, insert_missing: bool) -> (r: (
    Json,
    Vec<Vec<u8>>,
))
    requires
        wf(jv(doc)),
    ensures
        jv(r.0) == pkg_patch(
            jv(doc),
            opt_view(fields.name),
            opt_view(fields.version),
            opt_view(fields.description),
            insert_missing,
        ),
        wf(jv(r.0)),
        r.1.deep_view() == pkg_skipped(
            jv(doc),
            opt_view(fields.name),
            opt_view(fields.version),
            opt_view(fields.description),
            insert_missing,
        ),
{
    let ghost d0 = jv(doc);
    let ghost nv = opt_view(fields.name);
    let ghost vv = opt_view(fields.version);
    let ghost dv = opt_view(fields.description);
    proof {
        lemma_ordinary_valid_body(name_key());
        lemma_ordinary_valid_body(version_key());
        lemma_ordinary_valid_body(description_key());
        if d0 is Obj {
            lemma_set_field_shape(d0, name_key(), nv, insert_missing);
            lemma_set_field_shape(
                set_field(d0, name_key(), nv, insert_missing),
                version_key(),
                vv,
                insert_missing,
            );
        }
    }
    let mut skipped: Vec<Vec<u8>> = Vec::new();
    let (doc1, sk1) = set_field_exec(doc, name_key_bytes(), &fields.name, insert_missing);
    if sk1 {
        skipped.push(name_key_bytes());
    }
    let (doc2, sk2) = set_field_exec(doc1, version_key_bytes(), &fields.version, insert_missing);
    if sk2 {
        skipped.push(version_key_bytes());
    }
    let (doc3, sk3) = set_field_exec(
        doc2,
        description_key_bytes(),
        &fields.description,
        insert_missing,
    );
    if sk3 {
        skipped.push(description_key_bytes());
    }
    proof {
        lemma_skip_eq(d0, nv, vv, dv, insert_missing);
        assert(skipped.deep_view() =~= pkg_skipped(d0, nv, vv, dv, insert_missing)) by {
            assert(forall|q: int|
                0 <= q < skipped@.len() ==> (#[trigger] skipped@[q]).deep_view() =~= skipped@[q]@);
            reveal_dv(&skipped);
        }
    }
    (doc3, skipped)
}

/// Skipping is decided field by field against the original document: an
/// earlier field patch never changes whether a later one is skipped.
proof fn lemma_skip_eq(
    d: JsonV,
    name: Option<Seq<u8>>,
    version: Option<Seq<u8>>,
    description: Option<Seq<u8>>,
    ins: bool,
)
    requires
        wf(d),
    ensures
        field_skipped(set_field(d, name_key(), name, ins), version_key(), version, ins)
            == field_skipped(d, version_key(), version, ins),
        field_skipped(
            set_field(set_field(d, name_key(), name, ins), version_key(), version, ins),
            description_key(),
            description,
            ins,
        ) == field_skipped(d, description_key(), description, ins),
        wf(set_field(d, name_key(), name, ins)),
        wf(set_field(set_field(d, name_key(), name, ins), version_key(), version, ins)),
{
    lemma_ordinary_valid_body(name_key());
    lemma_ordinary_valid_body(version_key());
    let d1 = set_field(d, name_key(), name, ins);
    if d is Obj {
        assert(unique_keys(d->Obj_0));
        lemma_set_field_shape(d, name_key(), name, ins);
        assert(name_key() != version_key()) by {
            assert(name_key().len() != version_key().len());
        }
        assert(name_key() != description_key()) by {
            assert(name_key().len() != description_key().len());
        }
        if name is Some && (obj_has(d->Obj_0, name_key()) || ins) {
            lemma_esc_valid(name->Some_0);
            lemma_obj_set_wf(d->Obj_0, name_key(), JsonV::Str(esc(name->Some_0)));
        }
        assert(wf(d1));
        lemma_set_field_shape(d1, version_key(), version, ins);
        assert(version_key() != description_key()) by {
            assert(version_key().len() != description_key().len());
        }
        if version is Some && d1 is Obj && (obj_has(d1->Obj_0, version_key()) || ins) {
            lemma_esc_valid(version->Some_0);
            lemma_obj_set_wf(d1->Obj_0, version_key(), JsonV::Str(esc(version->Some_0)));
        }
    }
}

/// Surfaces the element-wise deep view of the skipped-key list.
proof fn reveal_dv(skipped: &Vec<Vec<u8>>)
    ensures
        skipped.deep_view().len() == skipped@.len(),
        forall|q: int|
            0 <= q < skipped@.len() ==> #[trigger] skipped.deep_view()[q] == skipped@[q]@,
{
    assert forall|q: int| 0 <= q < skipped@.len() implies #[trigger] skipped.deep_view()[q]
        == skipped@[q]@ by {
        assert(skipped@[q].deep_view() =~= skipped@[q]@);
    }
}

// ---------------------------------------------------------------------
// Script entries.
// ---------------------------------------------------------------------

/// The script patch: one entry of the script map, inserted or silently
/// overwritten; nothing where the document has no script map.
pub open spec fn script_patch(d: JsonV, key: Seq<u8>, cmd: Seq<u8>) -> Option<JsonV> {
    match d {
        JsonV::Obj(m) => if obj_has(m, scripts_key()) && obj_get(m, scripts_key()) is Obj {
            Some(
                JsonV::Obj(
                    obj_set(
                        m,
                        scripts_key(),
                        JsonV::Obj(
                            obj_set(
                                obj_get(m, scripts_key())->Obj_0,
                                esc(key),
                                JsonV::Str(esc(cmd)),
                            ),
                        ),
                    ),
                ),
            )
        } else {
            None
        },
        _ => None,
    }
}

/// Inserts one entry into the script map, overwriting silently where the
/// key exists.  Where the document has no script map, the document is
/// returned unchanged and the second component is false.
pub fn insert_script(doc: Json, key: &Vec<u8>, command: &Vec<u8>) -> (r: (Json, bool))
    requires
        wf(jv(doc)),
    ensures
        r.1 == (script_patch(jv(doc), key@, command@) is Some),
        r.1 ==> Some(jv(r.0)) == script_patch(jv(doc), key@, command@),
        !r.1 ==> jv(r.0) == jv(doc),
        wf(jv(r.0)),
{
    let ghost d0 = jv(doc);
    match doc {
        Json::Obj(pairs) => {
            let ghost p0 = pairs@;
            let ghost m = jv_pairs(p0);
            proof {
                lemma_jv_pairs_points(p0);
            }
            let kb = scripts_key_bytes();
            match find_key(&pairs, &kb) {
                None => (Json::Obj(pairs), false),
                Some(i) => {
                    let mut pairs = pairs;
                    let pair = pairs.remove(i);
                    let kk = pair.0;
                    proof {
                        assert(m[i as int] == (p0[i as int].0@, jv(p0[i as int].1)));
                        assert(obj_get(m, scripts_key()) == jv(pair.1));
                    }
                    match pair.1 {
                        Json::Obj(inner) => {
                            proof {
                                assert(wf(m[i as int].1));
                                assert(unique_keys(jv_pairs(inner@)));
                                lemma_esc_valid(key@);
                                lemma_esc_valid(command@);
                                lemma_obj_set_wf(
                                    jv_pairs(inner@),
                                    esc(key@),
                                    JsonV::Str(esc(command@)),
                                );
                            }
                            let keybody = escape(key);
                            let cmdbody = escape(command);
                            let inner2 = pairs_set(inner, keybody, Json::Str(cmdbody));
                            let mut pairs2 = pairs;
                            pairs2.insert(i, (kk, Json::Obj(inner2)));
                            proof {
                                assert(pairs2@ =~= p0.update(i as int, (kk, Json::Obj(inner2))));
                                lemma_jv_pairs_points(pairs2@);
                                assert(kk@ == scripts_key());
                                assert(jv_pairs(pairs2@) =~= m.update(
                                    i as int,
                                    (scripts_key(), jv(Json::Obj(inner2))),
                                ));
                                assert(key_idx(m, scripts_key()) == i);
                                assert(jv_pairs(pairs2@) == obj_set(
                                    m,
                                    scripts_key(),
                                    jv(Json::Obj(inner2)),
                                ));
                                lemma_ordinary_valid_body(scripts_key());
                                lemma_obj_set_wf(m, scripts_key(), jv(Json::Obj(inner2)));
                            }
                            (Json::Obj(pairs2), true)
                        },
                        other => {
                            let mut pairs2 = pairs;
                            pairs2.insert(i, (kk, other));
                            proof {
                                assert(pairs2@ =~= p0);
                            }
                            (Json::Obj(pairs2), false)
                        },
                    }
                },
            }
        },
        other => (other, false),
    }
}

// ---------------------------------------------------------------------
// The library output kind.
// ---------------------------------------------------------------------

/// The single-element output-kind list holding `kind`.
pub open spec fn kind_list(kind: Seq<u8>) -> JsonV {
    JsonV::Arr(seq![JsonV::Str(esc(kind))])
}

/// The library-section patch: the section's output-kind list becomes the
/// one-element list holding `kind`; an absent section is created; every
/// other key of an existing section is preserved.  Nothing where the
/// document is not a table or its library section is not a table.
pub open spec fn libtype_patch(d: JsonV, kind: Seq<u8>) -> Option<JsonV> {
    match d {
        JsonV::Obj(m) => if !obj_has(m, lib_key()) {
            Some(
                JsonV::Obj(
                    m.push((lib_key(), JsonV::Obj(seq![(crate_type_key(), kind_list(kind))]))),
                ),
            )
        } else if obj_get(m, lib_key()) is Obj {
            Some(
                JsonV::Obj(
                    obj_set(
                        m,
                        lib_key(),
                        JsonV::Obj(
                            obj_set(obj_get(m, lib_key())->Obj_0, crate_type_key(), kind_list(kind)),
                        ),
                    ),
                ),
            )
        } else {
            None
        },
        _ => None,
    }
}

/// Ensures a library section exists and sets its output-kind list to the
/// single kind given, preserving every other key of the section.  Fails
/// with `SchemaMismatch` exactly where the document or the existing
/// section is not a table.
pub fn set_library_crate_type(doc: Json, kind: &Vec<u8>) -> (r: Result<Json, ScaffoldError>)
    requires
        wf(jv(doc)),
    ensures
        match r {
            Ok(d2) => Some(jv(d2)) == libtype_patch(jv(doc), kind@) && wf(jv(d2)),
            Err(e) => e == ScaffoldError::SchemaMismatch && libtype_patch(jv(doc), kind@) is None,
        },
{
    let ghost d0 = jv(doc);
    proof {
        lemma_esc_valid(kind@);
        lemma_ordinary_valid_body(lib_key());
        lemma_ordinary_valid_body(crate_type_key());
        assert(wf(kind_list(kind@))) by {
            let s = kind_list(kind@)->Arr_0;
            assert(s.len() == 1 && s[0] == JsonV::Str(esc(kind@)));
            assert(wf(s[0]));
            assert(forall|q: int| 0 <= q < s.len() ==> wf(#[trigger] s[q]));
        }
    }
    match doc {
        Json::Obj(pairs) => {
            let ghost p0 = pairs@;
            let ghost m = jv_pairs(p0);
            proof {
                lemma_jv_pairs_points(p0);
            }
            let kb = lib_key_bytes();
            match find_key(&pairs, &kb) {
                None => {
                    let ctk = crate_type_key_bytes();
                    let kindbody = escape(kind);
                    let mut section: Vec<(Vec<u8>, Json)> = Vec::new();
                    let mut list: Vec<Json> = Vec::new();
                    list.push(Json::Str(kindbody));
                    proof {
                        assert(list@[0] == Json::Str(kindbody));
                        assert(jv(Json::Str(kindbody)) == JsonV::Str(kindbody@));
                        assert(list@.skip(1) =~= Seq::<Json>::empty());
                        assert(jv_list(list@.skip(1)) == Seq::<JsonV>::empty());
                        assert(jv_list(list@) =~= seq![JsonV::Str(esc(kind@))]);
                    }
                    let ghost listv = list@;
                    section.push((ctk, Json::Arr(list)));
                    proof {
                        assert(section@[0] == (ctk, Json::Arr(list)));
                        assert(jv(Json::Arr(list)) == JsonV::Arr(jv_list(listv)));
                        assert(jv(Json::Arr(list)) == kind_list(kind@));
                        assert(section@.skip(1) =~= Seq::<(Vec<u8>, Json)>::empty());
                        assert(jv_pairs(section@.skip(1)) == Seq::<(Seq<u8>, JsonV)>::empty());
                        assert(jv_pairs(section@) =~= seq![(crate_type_key(), kind_list(kind@))]);
                    }
                    let mut pairs2 = pairs;
                    let lb = lib_key_bytes();
                    pairs2.push((lb, Json::Obj(section)));
                    proof {
                        lemma_jv_pairs_points(pairs2@);
                        assert(jv_pairs(pairs2@) =~= m.push(
                            (lib_key(), JsonV::Obj(seq![(crate_type_key(), kind_list(kind@))])),
                        ));
                        assert(wf(JsonV::Obj(seq![(crate_type_key(), kind_list(kind@))]))) by {
                            let sec = seq![(crate_type_key(), kind_list(kind@))];
                            assert(sec.len() == 1);
                            assert(sec[0] == (crate_type_key(), kind_list(kind@)));
                            assert(unique_keys(sec));
                        }
                        lemma_obj_set_wf(
                            m,
                            lib_key(),
                            JsonV::Obj(seq![(crate_type_key(), kind_list(kind@))]),
                        );
                        assert(obj_set(
                            m,
                            lib_key(),
                            JsonV::Obj(seq![(crate_type_key(), kind_list(kind@))]),
                        ) == m.push(
                            (lib_key(), JsonV::Obj(seq![(crate_type_key(), kind_list(kind@))])),
                        ));
                    }
                    Ok(Json::Obj(pairs2))
                },
                Some(i) => {
                    let mut pairs = pairs;
                    let pair = pairs.remove(i);
                    let kk = pair.0;
                    proof {
                        assert(m[i as int] == (p0[i as int].0@, jv(p0[i as int].1)));
                        assert(obj_get(m, lib_key()) == jv(pair.1));
                    }
                    match pair.1 {
                        Json::Obj(inner) => {
                            proof {
                                assert(wf(m[i as int].1));
                                assert(unique_keys(jv_pairs(inner@)));
                                lemma_obj_set_wf(
                                    jv_pairs(inner@),
                                    crate_type_key(),
                                    kind_list(kind@),
                                );
                            }
                            let ctk = crate_type_key_bytes();
                            let kindbody = escape(kind);
                            let mut list: Vec<Json> = Vec::new();
                            list.push(Json::Str(kindbody));
                            proof {
                                assert(list@[0] == Json::Str(kindbody));
                                assert(jv(Json::Str(kindbody)) == JsonV::Str(kindbody@));
                                assert(list@.skip(1) =~= Seq::<Json>::empty());
                                assert(jv_list(list@.skip(1)) == Seq::<JsonV>::empty());
                                assert(jv_list(list@) =~= seq![JsonV::Str(esc(kind@))]);
                            }
                            let ghost listv = list@;
                            let inner2 = pairs_set(inner, ctk, Json::Arr(list));
                            proof {
                                assert(jv(Json::Arr(list)) == JsonV::Arr(jv_list(listv)));
                                assert(jv(Json::Arr(list)) == kind_list(kind@));
                            }
                            let mut pairs2 = pairs;
                            pairs2.insert(i, (kk, Json::Obj(inner2)));
                            proof {
                                assert(pairs2@ =~= p0.update(i as int, (kk, Json::Obj(inner2))));
                                lemma_jv_pairs_points(pairs2@);
                                assert(kk@ == lib_key());
                                assert(jv_pairs(pairs2@) =~= m.update(
                                    i as int,
                                    (lib_key(), jv(Json::Obj(inner2))),
                                ));
                                assert(key_idx(m, lib_key()) == i);
                                assert(jv_pairs(pairs2@) == obj_set(
                                    m,
                                    lib_key(),
                                    jv(Json::Obj(inner2)),
                                ));
                                lemma_obj_set_wf(m, lib_key(), jv(Json::Obj(inner2)));
                            }
                            Ok(Json::Obj(pairs2))
                        },
                        other => {
                            proof {
                                assert(!(obj_get(m, lib_key()) is Obj));
                            }
                            Err(ScaffoldError::SchemaMismatch)
                        },
                    }
                },
            }
        },
        _ => Err(ScaffoldError::SchemaMismatch),
    }
}

// ---------------------------------------------------------------------
// Laws of the edits.
// ---------------------------------------------------------------------

/// Setting one key twice is setting it once with the second value: the
/// table ends with exactly one entry under the key, holding that value.
pub proof fn lemma_obj_set_twice(m: Seq<(Seq<u8>, JsonV)>, k: Seq<u8>, v1: JsonV, v2: JsonV)
    requires
        unique_keys(m),
    ensures
        obj_set(obj_set(m, k, v1), k, v2) == obj_set(m, k, v2),
{
    lemma_obj_set_points(m, k, v1);
    let m1 = obj_set(m, k, v1);
    lemma_obj_set_points(m1, k, v2);
    lemma_obj_set_points(m, k, v2);
    assert(obj_get(m1, k) == v1);
    assert(m1[key_idx(m1, k)].0 == k);
    if obj_has(m, k) {
        let i = key_idx(m, k);
        assert(forall|q: int| 0 <= q < m.len() && q != i ==> (#[trigger] m[q]).0 != k);
        assert(forall|q: int| 0 <= q < m1.len() && q != i ==> m1[q] == m[q]);
        assert(key_idx(m1, k) == i);
        assert(obj_set(m1, k, v2) =~= obj_set(m, k, v2));
    } else {
        let i = m.len() as int;
        assert(m1[i] == (k, v1));
        assert(forall|q: int| 0 <= q < m.len() ==> m1[q] == m[q]);
        assert(key_idx(m1, k) == i);
        assert(obj_set(m1, k, v2) =~= obj_set(m, k, v2));
    }
}

/// Two dependency patches under one name are the second patch alone: the
/// dependency table ends with exactly one entry under the name, holding
/// the second location and feature list.
pub proof fn lemma_set_dependency_twice(
    d: JsonV,
    name: Seq<u8>,
    loc1: Seq<u8>,
    feats1: Seq<Seq<u8>>,
    loc2: Seq<u8>,
    feats2: Seq<Seq<u8>>,
)
    requires
        wf(d),
        dep_patch(d, name, loc1, feats1) is Some,
    ensures
        dep_patch(dep_patch(d, name, loc1, feats1)->Some_0, name, loc2, feats2) == dep_patch(
            d,
            name,
            loc2,
            feats2,
        ),
        ({
            let d2 = dep_patch(dep_patch(d, name, loc1, feats1)->Some_0, name, loc2, feats2);
            &&& d2 is Some
            &&& {
                let deps = obj_get(d2->Some_0->Obj_0, dep_key())->Obj_0;
                &&& obj_has(deps, esc(name))
                &&& unique_keys(deps)
                &&& obj_get(deps, esc(name)) == dep_node(loc2, feats2)
            }
        }),
{
    let m = d->Obj_0;
    let inner = obj_get(m, dep_key())->Obj_0;
    assert(wf(m[key_idx(m, dep_key())].1));
    assert(unique_keys(inner));
    let inner1 = obj_set(inner, esc(name), dep_node(loc1, feats1));
    let m1 = obj_set(m, dep_key(), JsonV::Obj(inner1));
    let d1 = dep_patch(d, name, loc1, feats1)->Some_0;
    assert(d1 == JsonV::Obj(m1));
    lemma_obj_set_points(m, dep_key(), JsonV::Obj(inner1));
    assert(obj_has(m1, dep_key()) && obj_get(m1, dep_key()) == JsonV::Obj(inner1));
    lemma_obj_set_points(inner, esc(name), dep_node(loc1, feats1));
    lemma_obj_set_twice(inner, esc(name), dep_node(loc1, feats1), dep_node(loc2, feats2));
    lemma_obj_set_twice(m, dep_key(), JsonV::Obj(inner1), JsonV::Obj(
        obj_set(inner, esc(name), dep_node(loc2, feats2)),
    ));
    let inner2 = obj_set(inner1, esc(name), dep_node(loc2, feats2));
    assert(inner2 == obj_set(inner, esc(name), dep_node(loc2, feats2)));
    lemma_obj_set_points(inner1, esc(name), dep_node(loc2, feats2));
    let m2 = obj_set(m1, dep_key(), JsonV::Obj(inner2));
    lemma_obj_set_points(m1, dep_key(), JsonV::Obj(inner2));
    assert(obj_get(m2, dep_key()) == JsonV::Obj(inner2));
}

/// The missing-key behavior of a field patch: with insertion the field is
/// appended; without it the document is returned unchanged — and in
/// neither case does the patch fail.
pub proof fn lemma_set_field_missing(d: JsonV, key: Seq<u8>, pv: Seq<u8>)
    requires
        d is Obj,
        !obj_has(d->Obj_0, key),
    ensures
        set_field(d, key, Some(pv), false) == d,
        set_field(d, key, Some(pv), true) == JsonV::Obj(
            d->Obj_0.push((key, JsonV::Str(esc(pv)))),
        ),
{
}

} // verus!
