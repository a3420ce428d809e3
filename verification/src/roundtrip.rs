//! Round-trip laws of the manifest textual form.
//!
//! Parsing establishes well-formedness, and serializing a well-formed
//! document parses back to exactly that document.  Together these give
//! the patcher's re-serialization idempotence: saving a loaded document,
//! loading it again and saving once more yields byte-identical text.

use vstd::prelude::*;

use crate::json::JsonV;
use crate::json::count_digits;
use crate::json::is_digit;
use crate::json::is_hex;
use crate::json::is_num_cont;
use crate::json::is_simple_esc;
use crate::json::is_ws;
use crate::json::obj_has;
use crate::json::parse_doc;
use crate::json::parse_items;
use crate::json::parse_membs;
use crate::json::parse_value;
use crate::json::scan_body;
use crate::json::scan_num;
use crate::json::ser;
use crate::json::ser_doc;
use crate::json::ser_items;
use crate::json::ser_memb;
use crate::json::ser_membs;
use crate::json::skip_ws;
use crate::json::unique_keys;
use crate::json::valid_body;
use crate::json::valid_num;
use crate::json::wf;

verus! {

// ---------------------------------------------------------------------
// Scanner lemmas.
// ---------------------------------------------------------------------

/// What a string-body scan finds does not change when bytes are appended
/// after the closing quote.
proof fn lemma_scan_body_extend(u: Seq<u8>, rest: Seq<u8>)
    requires
        scan_body(u) is Some,
    ensures
        scan_body(u + rest) == scan_body(u),
    decreases u.len(),
{
    let t = u + rest;
    assert(u.len() > 0);
    assert(t[0] == u[0]);
    if u[0] == 34 {
    } else if u[0] == 92 {
        assert(t.len() >= u.len());
        if u.len() >= 2 && is_simple_esc(u[1]) {
            assert(t[1] == u[1]);
            assert((u + rest).skip(2) =~= u.skip(2) + rest);
            lemma_scan_body_extend(u.skip(2), rest);
        } else if u.len() >= 6 && u[1] == 117 && is_hex(u[2]) && is_hex(u[3]) && is_hex(u[4])
            && is_hex(u[5]) {
            assert(t[1] == u[1] && t[2] == u[2] && t[3] == u[3] && t[4] == u[4] && t[5] == u[5]);
            assert((u + rest).skip(6) =~= u.skip(6) + rest);
            lemma_scan_body_extend(u.skip(6), rest);
        } else {
            assert(false);
        }
    } else if u[0] < 32 {
        assert(false);
    } else {
        assert((u + rest).skip(1) =~= u.skip(1) + rest);
        lemma_scan_body_extend(u.skip(1), rest);
    }
}

/// A found closing quote lies inside the scanned bytes.
proof fn lemma_scan_body_le(u: Seq<u8>)
    requires
        scan_body(u) is Some,
    ensures
        0 <= scan_body(u)->Some_0 < u.len(),
    decreases u.len(),
{
    if u[0] == 34 {
    } else if u[0] == 92 {
        if u.len() >= 2 && is_simple_esc(u[1]) {
            lemma_scan_body_le(u.skip(2));
        } else if u.len() >= 6 && u[1] == 117 && is_hex(u[2]) && is_hex(u[3]) && is_hex(u[4])
            && is_hex(u[5]) {
            lemma_scan_body_le(u.skip(6));
        }
    } else if u[0] < 32 {
    } else {
        lemma_scan_body_le(u.skip(1));
    }
}

/// The bytes before the closing quote that a scan finds are a well-formed
/// body.
proof fn lemma_scan_body_take(u: Seq<u8>)
    requires
        scan_body(u) is Some,
    ensures
        valid_body(u.take(scan_body(u)->Some_0)),
    decreases u.len(),
{
    let n = scan_body(u)->Some_0;
    let b = u.take(n) + seq![34u8];
    assert(u.len() > 0);
    lemma_scan_body_le(u);
    assert(b.len() == n + 1);
    if u[0] == 34 {
        assert(b =~= seq![34u8]);
    } else if u[0] == 92 {
        if u.len() >= 2 && is_simple_esc(u[1]) {
            assert(scan_body(u.skip(2)) == Some(n - 2));
            lemma_scan_body_le(u.skip(2));
            lemma_scan_body_take(u.skip(2));
            assert(b[0] == u[0]);
            assert(b[1] == u[1]);
            assert(b.skip(2) =~= u.skip(2).take(n - 2) + seq![34u8]);
        } else if u.len() >= 6 && u[1] == 117 && is_hex(u[2]) && is_hex(u[3]) && is_hex(u[4])
            && is_hex(u[5]) {
            assert(scan_body(u.skip(6)) == Some(n - 6));
            lemma_scan_body_le(u.skip(6));
            lemma_scan_body_take(u.skip(6));
            assert(b[0] == u[0]);
            assert(b[1] == u[1] && b[2] == u[2] && b[3] == u[3] && b[4] == u[4] && b[5] == u[5]);
            assert(b.skip(6) =~= u.skip(6).take(n - 6) + seq![34u8]);
        } else {
            assert(false);
        }
    } else if u[0] < 32 {
        assert(false);
    } else {
        assert(scan_body(u.skip(1)) == Some(n - 1));
        lemma_scan_body_le(u.skip(1));
        lemma_scan_body_take(u.skip(1));
        assert(b[0] == u[0]);
        assert(b.skip(1) =~= u.skip(1).take(n - 1) + seq![34u8]);
    }
}

/// The count of leading digits never exceeds the length.
proof fn lemma_count_digits_le(t: Seq<u8>)
    ensures
        0 <= count_digits(t) <= t.len(),
    decreases t.len(),
{
    if t.len() > 0 && is_digit(t[0]) {
        lemma_count_digits_le(t.skip(1));
    }
}

/// How the count of leading digits behaves under appending: a count that
/// stopped early is unchanged; a count that ran to the end continues into
/// the appended bytes.
proof fn lemma_count_digits_concat(t: Seq<u8>, rest: Seq<u8>)
    ensures
        count_digits(t + rest) == if count_digits(t) < t.len() {
            count_digits(t)
        } else {
            t.len() + count_digits(rest)
        },
    decreases t.len(),
{
    lemma_count_digits_le(t);
    if t.len() == 0 {
        assert(t + rest =~= rest);
    } else {
        assert((t + rest)[0] == t[0]);
        if is_digit(t[0]) {
            assert((t + rest).skip(1) =~= t.skip(1) + rest);
            lemma_count_digits_concat(t.skip(1), rest);
            lemma_count_digits_le(t.skip(1));
        }
    }
}

/// Truncation at or after the stopping point leaves the count of leading
/// digits unchanged.
proof fn lemma_count_digits_take(t: Seq<u8>, m: int)
    requires
        0 <= m <= t.len(),
        count_digits(t) <= m,
    ensures
        count_digits(t.take(m)) == count_digits(t),
    decreases t.len(),
{
    lemma_count_digits_le(t);
    if t.len() > 0 && m > 0 {
        assert(t.take(m)[0] == t[0]);
        if is_digit(t[0]) {
            assert(t.take(m).skip(1) =~= t.skip(1).take(m - 1));
            lemma_count_digits_take(t.skip(1), m - 1);
        } else {
            assert(count_digits(t.take(m)) == 0);
        }
    }
}

/// A byte string is a well-formed numeric literal exactly when scanning
/// it consumes it whole; appending a byte that cannot extend a number
/// changes nothing about the scan.
#[verifier::rlimit(100)]
#[verifier::spinoff_prover]
proof fn lemma_scan_num_extend(u: Seq<u8>, rest: Seq<u8>)
    requires
        valid_num(u),
        rest.len() == 0 || !is_num_cont(rest[0]),
    ensures
        scan_num(u + rest) == Some(u.len() as int),
    decreases u.len(),
{
    let t = u + rest;
    let s = if u.len() > 0 && u[0] == 45 {
        1int
    } else {
        0int
    };
    assert(u.len() > 0) by {
        if u.len() == 0 {
            assert(count_digits(u.skip(0)) == 0);
            assert(scan_num(u) is None);
        }
    }
    assert(t[0] == u[0]);
    let u1 = u.skip(s);
    let t1 = t.skip(s);
    assert(t1 =~= u1 + rest);
    let d1 = count_digits(u1);
    lemma_count_digits_le(u1);
    assert(d1 > 0) by {
        if d1 == 0 {
            assert(scan_num(u) is None);
        }
    }
    lemma_count_digits_concat(u1, rest);
    if d1 == u1.len() {
        assert(count_digits(rest) == 0) by {
            if rest.len() > 0 && is_digit(rest[0]) {
                assert(is_num_cont(rest[0]));
            }
        }
        assert(count_digits(t1) == d1);
    } else {
        assert(count_digits(t1) == d1);
    }
    let u2 = u1.skip(d1);
    let t2 = t1.skip(d1);
    assert(t2 =~= u2 + rest);
    if u2.len() == 0 {
        // the literal is sign and digits only
        assert(scan_num(u) == Some(s + d1));
        assert(u.len() == s + d1);
        assert(t2 =~= rest);
        if t2.len() >= 2 && t2[0] == 46 && is_digit(t2[1]) {
            assert(is_num_cont(rest[0]));
            assert(false);
        }
        if t2.len() > 0 && (t2[0] == 101 || t2[0] == 69) {
            assert(is_num_cont(rest[0]));
            assert(false);
        }
        assert(scan_num(t) == Some(s + d1));
    } else {
        let f = if u2.len() >= 2 && u2[0] == 46 && is_digit(u2[1]) {
            1 + count_digits(u2.skip(1))
        } else {
            0int
        };
        assert(t2[0] == u2[0]);
        if u2.len() >= 2 && u2[0] == 46 && is_digit(u2[1]) {
            assert(t2[1] == u2[1]);
            assert(t2.skip(1) =~= u2.skip(1) + rest);
            lemma_count_digits_le(u2.skip(1));
            lemma_count_digits_concat(u2.skip(1), rest);
            if count_digits(u2.skip(1)) == u2.skip(1).len() {
                assert(count_digits(rest) == 0) by {
                    if rest.len() > 0 && is_digit(rest[0]) {
                        assert(is_num_cont(rest[0]));
                    }
                }
            }
            assert(count_digits(t2.skip(1)) == count_digits(u2.skip(1)));
        } else {
            if t2.len() >= 2 && t2[0] == 46 && is_digit(t2[1]) {
                // u ended directly after its digits with a bare dot
                assert(u2.len() == 1 && u2[0] == 46);
                assert(scan_num(u) == Some(s + d1) || scan_num(u) is None);
                assert(false);
            }
        }
        let u3 = u2.skip(f);
        let t3 = t2.skip(f);
        assert(t3 =~= u3 + rest);
        if u3.len() == 0 {
            assert(scan_num(u) == Some(s + d1 + f));
            assert(u.len() == s + d1 + f);
            assert(t3 =~= rest);
            if t3.len() > 0 && (t3[0] == 101 || t3[0] == 69) {
                assert(is_num_cont(rest[0]));
                assert(false);
            }
            assert(scan_num(t) == Some(s + d1 + f));
        } else {
            assert(t3[0] == u3[0]);
            if u3[0] == 101 || u3[0] == 69 {
                let g = if u3.len() > 1 && (u3[1] == 43 || u3[1] == 45) {
                    1int
                } else {
                    0int
                };
                assert(u3.len() > 1) by {
                    if u3.len() == 1 {
                        assert(count_digits(u3.skip(1 + g)) == 0 || scan_num(u) is None);
                        assert(false);
                    }
                }
                assert(t3.len() > 1 && t3[1] == u3[1]);
                let de = count_digits(u3.skip(1 + g));
                assert(de > 0);
                assert(t3.skip(1 + g) =~= u3.skip(1 + g) + rest);
                lemma_count_digits_le(u3.skip(1 + g));
                lemma_count_digits_concat(u3.skip(1 + g), rest);
                if de == u3.skip(1 + g).len() {
                    assert(count_digits(rest) == 0) by {
                        if rest.len() > 0 && is_digit(rest[0]) {
                            assert(is_num_cont(rest[0]));
                        }
                    }
                }
                assert(count_digits(t3.skip(1 + g)) == de);
                assert(scan_num(u) == Some(s + d1 + f + 1 + g + de));
                assert(scan_num(t) == Some(s + d1 + f + 1 + g + de));
            } else {
                // u has unconsumed bytes that are no exponent: the scan
                // stopped before the end, against well-formedness
                assert(scan_num(u) == Some(s + d1 + f));
                assert(u.len() == s + d1 + f);
                assert(u3.len() == 0);
                assert(false);
            }
        }
    }
}

/// The bytes a numeric scan consumes are a well-formed numeric literal.
#[verifier::rlimit(100)]
#[verifier::spinoff_prover]
proof fn lemma_scan_num_take(t: Seq<u8>)
    requires
        scan_num(t) is Some,
    ensures
        valid_num(t.take(scan_num(t)->Some_0)),
{
    let n = scan_num(t)->Some_0;
    let s = if t.len() > 0 && t[0] == 45 {
        1int
    } else {
        0int
    };
    let t1 = t.skip(s);
    let d1 = count_digits(t1);
    lemma_count_digits_le(t1);
    assert(d1 > 0) by {
        if d1 == 0 {
            assert(scan_num(t) is None);
        }
    }
    let t2 = t1.skip(d1);
    let hasfrac = t2.len() >= 2 && t2[0] == 46 && is_digit(t2[1]);
    let f = if hasfrac {
        1 + count_digits(t2.skip(1))
    } else {
        0int
    };
    lemma_count_digits_le(t2.skip(1));
    assert(0 <= f <= t2.len());
    assert(hasfrac ==> f >= 2) by {
        if hasfrac {
            assert(t2.skip(1)[0] == t2[1]);
            lemma_count_digits_le(t2.skip(1).skip(1));
            assert(count_digits(t2.skip(1)) >= 1);
        }
    }
    let t3 = t2.skip(f);
    let hasexp = t3.len() > 0 && (t3[0] == 101 || t3[0] == 69);
    let g = if hasexp && t3.len() > 1 && (t3[1] == 43 || t3[1] == 45) {
        1int
    } else {
        0int
    };
    let de = if hasexp {
        count_digits(t3.skip(1 + g))
    } else {
        0int
    };
    lemma_count_digits_le(t3.skip(1 + g));
    if hasexp {
        assert(de > 0) by {
            if de == 0 {
                assert(scan_num(t) is None);
            }
        }
        assert(n == s + d1 + f + 1 + g + de);
        assert(1 + g + de <= t3.len());
    } else {
        assert(n == s + d1 + f);
    }
    assert(0 <= n <= t.len());
    let u = t.take(n);
    assert(u.len() == n);
    assert(n > 0);
    assert(u[0] == t[0]);
    let us = if u.len() > 0 && u[0] == 45 {
        1int
    } else {
        0int
    };
    assert(us == s);
    let u1 = u.skip(us);
    assert(u1 =~= t1.take(n - s));
    lemma_count_digits_take(t1, n - s);
    assert(count_digits(u1) == d1);
    let u2 = u1.skip(d1);
    assert(u2 =~= t2.take(n - s - d1));
    assert(u2.len() == n - s - d1);
    let uhasfrac = u2.len() >= 2 && u2[0] == 46 && is_digit(u2[1]);
    if hasfrac {
        assert(u2.len() >= 2);
        assert(u2[0] == t2[0] && u2[1] == t2[1]);
        assert(uhasfrac);
        assert(u2.skip(1) =~= t2.skip(1).take(n - s - d1 - 1));
        lemma_count_digits_take(t2.skip(1), n - s - d1 - 1);
        assert(count_digits(u2.skip(1)) == f - 1);
    } else {
        if uhasfrac {
            assert(t2[0] == u2[0]);
            assert(t2[1] == u2[1]);
            assert(t2.len() >= 2);
            assert(false);
        }
    }
    let uf = if uhasfrac {
        1 + count_digits(u2.skip(1))
    } else {
        0int
    };
    assert(uf == f);
    let u3 = u2.skip(uf);
    assert(u3 =~= t3.take(n - s - d1 - f));
    assert(u3.len() == n - s - d1 - f);
    if hasexp {
        assert(u3.len() == 1 + g + de);
        assert(u3[0] == t3[0]);
        let ug = if u3.len() > 1 && (u3[1] == 43 || u3[1] == 45) {
            1int
        } else {
            0int
        };
        assert(ug == g) by {
            if u3.len() > 1 {
                assert(u3[1] == t3[1]);
            }
        }
        assert(u3.skip(1 + g) =~= t3.skip(1 + g).take(de));
        lemma_count_digits_take(t3.skip(1 + g), de);
        assert(count_digits(u3.skip(1 + g)) == de);
        assert(scan_num(u) == Some(s + d1 + f + 1 + g + de));
    } else {
        assert(u3.len() == 0);
        assert(scan_num(u) == Some(s + d1 + f));
    }
}

// ---------------------------------------------------------------------
// Parsing yields well-formed documents.
// ---------------------------------------------------------------------

/// Every node the grammar accepts is well formed.
pub proof fn lemma_parse_value_wf(t: Seq<u8>)
    requires
        parse_value(t) is Some,
    ensures
        wf(parse_value(t)->Some_0.0),
    decreases t.len(), 1int,
{
    let b = t[0];
    if b == 110 || b == 116 || b == 102 {
    } else if b == 34 {
        lemma_scan_body_take(t.skip(1));
    } else if b == 91 {
        let t1 = skip_ws(t.skip(1));
        if t1.len() > 0 && t1[0] == 93 {
        } else {
            lemma_parse_items_wf(t1);
        }
    } else if b == 123 {
        let t1 = skip_ws(t.skip(1));
        if t1.len() > 0 && t1[0] == 125 {
        } else {
            lemma_parse_membs_wf(t1);
        }
    } else {
        lemma_scan_num_take(t);
    }
}

/// Every node of an accepted list is well formed.
pub proof fn lemma_parse_items_wf(t: Seq<u8>)
    requires
        parse_items(t) is Some,
    ensures
        forall|i: int|
            0 <= i < parse_items(t)->Some_0.0.len() ==> wf(
                #[trigger] parse_items(t)->Some_0.0[i],
            ),
    decreases t.len(), 2int,
{
    lemma_parse_value_wf(t);
    let v = parse_value(t)->Some_0.0;
    let t2 = parse_value(t)->Some_0.1;
    let t3 = skip_ws(t2);
    if t3.len() > 0 && t3[0] == 44 {
        let t4 = skip_ws(t3.skip(1));
        lemma_parse_items_wf(t4);
        let vs = parse_items(t4)->Some_0.0;
        let out = parse_items(t)->Some_0.0;
        assert(out == seq![v] + vs);
        assert forall|i: int| 0 <= i < out.len() implies wf(#[trigger] out[i]) by {
            if i == 0 {
                assert(out[0] == v);
            } else {
                assert(out[i] == vs[i - 1]);
            }
        }
    } else {
        let out = parse_items(t)->Some_0.0;
        assert(out == seq![v]);
        assert(out[0] == v);
    }
}

/// Every entry of an accepted table has a well-formed key body and a
/// well-formed node, and no key recurs.
pub proof fn lemma_parse_membs_wf(t: Seq<u8>)
    requires
        parse_membs(t) is Some,
    ensures
        unique_keys(parse_membs(t)->Some_0.0),
        forall|i: int|
            0 <= i < parse_membs(t)->Some_0.0.len() ==> valid_body(
                (#[trigger] parse_membs(t)->Some_0.0[i]).0,
            ) && wf(parse_membs(t)->Some_0.0[i].1),
    decreases t.len(), 2int,
{
    let n = scan_body(t.skip(1))->Some_0;
    lemma_scan_body_take(t.skip(1));
    let k = t.skip(1).take(n);
    let t2 = skip_ws(t.skip(1).skip(n + 1));
    let t3 = skip_ws(t2.skip(1));
    lemma_parse_value_wf(t3);
    let v = parse_value(t3)->Some_0.0;
    let t4 = parse_value(t3)->Some_0.1;
    let t5 = skip_ws(t4);
    if t5.len() > 0 && t5[0] == 44 {
        let t6 = skip_ws(t5.skip(1));
        lemma_parse_membs_wf(t6);
        let ms = parse_membs(t6)->Some_0.0;
        let out = parse_membs(t)->Some_0.0;
        assert(out == seq![(k, v)] + ms);
        assert(!obj_has(ms, k));
        assert forall|i: int| 0 <= i < out.len() implies valid_body((#[trigger] out[i]).0) && wf(
            out[i].1,
        ) by {
            if i == 0 {
                assert(out[0] == (k, v));
            } else {
                assert(out[i] == ms[i - 1]);
            }
        }
        assert forall|i: int, j: int| 0 <= i < j < out.len() implies (#[trigger] out[i]).0 != (
        #[trigger] out[j]).0 by {
            if i == 0 {
                assert(out[j] == ms[j - 1]);
                if out[j].0 == k {
                    assert(obj_has(ms, k));
                }
            } else {
                assert(out[i] == ms[i - 1]);
                assert(out[j] == ms[j - 1]);
            }
        }
    } else {
        let out = parse_membs(t)->Some_0.0;
        assert(out == seq![(k, v)]);
        assert(out[0] == (k, v));
    }
}

/// Every document the grammar accepts is well formed.
pub proof fn lemma_parse_doc_wf(t: Seq<u8>)
    requires
        parse_doc(t) is Some,
    ensures
        wf(parse_doc(t)->Some_0),
{
    lemma_parse_value_wf(skip_ws(t));
}

// ---------------------------------------------------------------------
// Serialized text parses back to the same document.
// ---------------------------------------------------------------------

/// A well-formed numeric literal starts with a minus sign or a digit.
proof fn lemma_valid_num_first(r: Seq<u8>)
    requires
        valid_num(r),
    ensures
        r.len() > 0,
        r[0] == 45 || is_digit(r[0]),
{
    assert(r.len() > 0) by {
        if r.len() == 0 {
            assert(count_digits(r.skip(0)) == 0);
            assert(scan_num(r) is None);
        }
    }
    if r[0] != 45 {
        let d1 = count_digits(r.skip(0));
        assert(r.skip(0) =~= r);
        lemma_count_digits_le(r);
        assert(d1 > 0) by {
            if count_digits(r.skip(0)) == 0 {
                assert(scan_num(r) is None);
            }
        }
        assert(is_digit(r[0])) by {
            if !is_digit(r[0]) {
                assert(count_digits(r) == 0);
            }
        }
    }
}

/// The serialized form of a well-formed node is nonempty and starts with
/// a token byte: never whitespace, never a separator or closer.
proof fn lemma_ser_first(v: JsonV)
    requires
        wf(v),
    ensures
        ser(v).len() > 0,
        !is_ws(ser(v)[0]),
        ser(v)[0] != 44 && ser(v)[0] != 93 && ser(v)[0] != 125,
{
    match v {
        JsonV::Null => {
            assert(ser(v)[0] == 110);
        },
        JsonV::Bool(b) => {
            if b {
                assert(ser(v)[0] == 116);
            } else {
                assert(ser(v)[0] == 102);
            }
        },
        JsonV::Num(r) => {
            lemma_valid_num_first(r);
        },
        JsonV::Str(r) => {
            assert(ser(v)[0] == 34);
        },
        JsonV::Arr(s) => {
            assert(ser(v)[0] == 91);
        },
        JsonV::Obj(m) => {
            assert(ser(v)[0] == 123);
        },
    }
}

/// Leading whitespace skipping leaves a suffix without leading
/// whitespace alone.
proof fn lemma_skip_ws_id(t: Seq<u8>)
    requires
        t.len() == 0 || !is_ws(t[0]),
    ensures
        skip_ws(t) == t,
{
}

/// Parsing the serialized form of a well-formed node, with any suffix
/// that cannot extend a numeric literal, yields exactly that node and
/// that suffix.
pub proof fn lemma_parse_ser(v: JsonV, rest: Seq<u8>)
    requires
        wf(v),
        rest.len() == 0 || !is_num_cont(rest[0]),
    ensures
        parse_value(ser(v) + rest) == Some((v, rest)),
    decreases v, 1int,
{
    let t = ser(v) + rest;
    lemma_ser_first(v);
    match v {
        JsonV::Null => {
            assert(ser(v) == crate::json::null_lit());
            assert(t.len() == 4 + rest.len());
            assert(t[0] == 110);
            assert(t.take(4) =~= crate::json::null_lit());
            assert(t.skip(4) =~= rest);
        },
        JsonV::Bool(b) => {
            if b {
                assert(t[0] == 116);
                assert(t.take(4) =~= crate::json::true_lit());
                assert(t.skip(4) =~= rest);
            } else {
                assert(t[0] == 102);
                assert(t.take(5) =~= crate::json::false_lit());
                assert(t.skip(5) =~= rest);
            }
        },
        JsonV::Num(r) => {
            lemma_valid_num_first(r);
            assert(t[0] == r[0]);
            assert(t[0] != 110 && t[0] != 116 && t[0] != 102 && t[0] != 34 && t[0] != 91 && t[0]
                != 123);
            assert(t =~= r + rest);
            lemma_scan_num_extend(r, rest);
            assert(scan_num(t) == Some(r.len() as int));
            assert(t.take(r.len() as int) =~= r);
            assert(t.skip(r.len() as int) =~= rest);
        },
        JsonV::Str(r) => {
            assert(t[0] == 34);
            assert(t.skip(1) =~= (r + seq![34u8]) + rest);
            lemma_scan_body_extend(r + seq![34u8], rest);
            assert(scan_body(t.skip(1)) == Some(r.len() as int));
            assert(t.skip(1).take(r.len() as int) =~= r);
            assert(t.skip(1).skip(r.len() as int + 1) =~= rest);
        },
        JsonV::Arr(s) => {
            lemma_parse_ser_arr(v, rest);
        },
        JsonV::Obj(m) => {
            lemma_parse_ser_obj(v, rest);
        },
    }
}

/// The array case of [`lemma_parse_ser`].
proof fn lemma_parse_ser_arr(v: JsonV, rest: Seq<u8>)
    requires
        wf(v),
        v is Arr,
        rest.len() == 0 || !is_num_cont(rest[0]),
    ensures
        parse_value(ser(v) + rest) == Some((v, rest)),
    decreases v, 0int,
{
    let t = ser(v) + rest;
    let s = v->Arr_0;
    assert(v == JsonV::Arr(s));
    assert(t[0] == 91);
    if s.len() == 0 {
        assert(s =~= Seq::<JsonV>::empty());
        assert(ser_items(s) == Seq::<u8>::empty());
        assert(t.skip(1) =~= seq![93u8] + rest);
        lemma_skip_ws_id(t.skip(1));
        let t1 = skip_ws(t.skip(1));
        assert(t1[0] == 93);
        assert(t1.skip(1) =~= rest);
    } else {
        let tail = ser_items(s) + seq![93u8] + rest;
        assert(t.skip(1) =~= tail);
        lemma_ser_first(s[0]);
        assert(tail[0] == ser(s[0])[0]) by {
            if s.len() == 1 {
                assert(ser_items(s) == ser(s[0]));
            } else {
                assert(ser_items(s) == ser(s[0]) + seq![44u8] + ser_items(s.skip(1)));
            }
        }
        lemma_skip_ws_id(tail);
        assert(skip_ws(t.skip(1)) == tail);
        assert(tail[0] != 93);
        assert(tail.len() < t.len());
        lemma_parse_ser_items(s, rest);
        assert(parse_items(tail) == Some((s, rest)));
    }
}

/// The table case of [`lemma_parse_ser`].
proof fn lemma_parse_ser_obj(v: JsonV, rest: Seq<u8>)
    requires
        wf(v),
        v is Obj,
        rest.len() == 0 || !is_num_cont(rest[0]),
    ensures
        parse_value(ser(v) + rest) == Some((v, rest)),
    decreases v, 0int,
{
    let t = ser(v) + rest;
    let m = v->Obj_0;
    assert(v == JsonV::Obj(m));
    assert(t[0] == 123);
    if m.len() == 0 {
        assert(m =~= Seq::<(Seq<u8>, JsonV)>::empty());
        assert(ser_membs(m) == Seq::<u8>::empty());
        assert(t.skip(1) =~= seq![125u8] + rest);
        lemma_skip_ws_id(t.skip(1));
        let t1 = skip_ws(t.skip(1));
        assert(t1[0] == 125);
        assert(t1.skip(1) =~= rest);
    } else {
        let tail = ser_membs(m) + seq![125u8] + rest;
        assert(t.skip(1) =~= tail);
        assert(tail[0] == 34) by {
            if m.len() == 1 {
                assert(ser_membs(m) == ser_memb(m[0]));
            } else {
                assert(ser_membs(m) == ser_memb(m[0]) + seq![44u8] + ser_membs(m.skip(1)));
            }
            assert(ser_memb(m[0])[0] == 34);
        }
        lemma_skip_ws_id(tail);
        assert(skip_ws(t.skip(1)) == tail);
        assert(tail[0] != 125);
        assert(tail.len() < t.len());
        lemma_parse_ser_membs(m, rest);
        assert(parse_membs(tail) == Some((m, rest)));
    }
}

/// Parsing the serialized forms of a nonempty well-formed node list,
/// followed by the closing bracket and any suffix, yields exactly that
/// list and that suffix.
#[verifier::rlimit(100)]
#[verifier::spinoff_prover]
proof fn lemma_parse_ser_items(s: Seq<JsonV>, rest: Seq<u8>)
    requires
        s.len() >= 1,
        forall|i: int| 0 <= i < s.len() ==> wf(#[trigger] s[i]),
    ensures
        parse_items(ser_items(s) + seq![93u8] + rest) == Some((s, rest)),
    decreases s, 2int,
{
    let t = ser_items(s) + seq![93u8] + rest;
    lemma_ser_first(s[0]);
    if s.len() == 1 {
        assert(ser_items(s) == ser(s[0]));
        let tail = seq![93u8] + rest;
        assert(t =~= ser(s[0]) + tail);
        lemma_parse_ser(s[0], tail);
        assert(parse_value(t) == Some((s[0], tail)));
        assert(tail.len() < t.len());
        lemma_skip_ws_id(tail);
        assert(skip_ws(tail) == tail);
        assert(tail[0] == 93);
        assert(tail.skip(1) =~= rest);
        assert(seq![s[0]] =~= s);
    } else {
        assert(ser_items(s) == ser(s[0]) + seq![44u8] + ser_items(s.skip(1)));
        let tail = seq![44u8] + ser_items(s.skip(1)) + seq![93u8] + rest;
        assert(t =~= ser(s[0]) + tail);
        lemma_parse_ser(s[0], tail);
        assert(parse_value(t) == Some((s[0], tail)));
        assert(tail.len() < t.len());
        lemma_skip_ws_id(tail);
        assert(skip_ws(tail) == tail);
        assert(tail[0] == 44);
        let t4in = tail.skip(1);
        assert(t4in =~= ser_items(s.skip(1)) + seq![93u8] + rest);
        assert(s.skip(1).len() >= 1);
        lemma_ser_first(s.skip(1)[0]);
        assert(t4in[0] == ser(s.skip(1)[0])[0]) by {
            if s.skip(1).len() == 1 {
                assert(ser_items(s.skip(1)) == ser(s.skip(1)[0]));
            } else {
                assert(ser_items(s.skip(1)) == ser(s.skip(1)[0]) + seq![44u8] + ser_items(
                    s.skip(1).skip(1),
                ));
            }
        }
        lemma_skip_ws_id(t4in);
        assert(skip_ws(t4in) == t4in);
        assert(t4in.len() < t.len());
        assert(forall|i: int| 0 <= i < s.skip(1).len() ==> wf(#[trigger] s.skip(1)[i]));
        lemma_parse_ser_items(s.skip(1), rest);
        assert(parse_items(t4in) == Some((s.skip(1), rest)));
        assert(seq![s[0]] + s.skip(1) =~= s);
    }
}

/// Parsing the serialized forms of a nonempty well-formed entry list,
/// followed by the closing brace and any suffix, yields exactly that
/// list and that suffix.
#[verifier::rlimit(100)]
#[verifier::spinoff_prover]
proof fn lemma_parse_ser_membs(m: Seq<(Seq<u8>, JsonV)>, rest: Seq<u8>)
    requires
        m.len() >= 1,
        unique_keys(m),
        forall|i: int|
            0 <= i < m.len() ==> valid_body((#[trigger] m[i]).0) && wf(m[i].1),
    ensures
        parse_membs(ser_membs(m) + seq![125u8] + rest) == Some((m, rest)),
    decreases m, 2int,
{
    let t = ser_membs(m) + seq![125u8] + rest;
    let k = m[0].0;
    let v = m[0].1;
    assert(m[0] == (k, v));
    let valrest = if m.len() == 1 {
        seq![125u8] + rest
    } else {
        seq![44u8] + ser_membs(m.skip(1)) + seq![125u8] + rest
    };
    if m.len() == 1 {
        assert(ser_membs(m) == ser_memb(m[0]));
    } else {
        assert(ser_membs(m) == ser_memb(m[0]) + seq![44u8] + ser_membs(m.skip(1)));
    }
    assert(t =~= seq![34u8] + k + seq![34u8, 58u8] + ser(v) + valrest);
    assert(t[0] == 34);
    assert(t.skip(1) =~= (k + seq![34u8]) + (seq![58u8] + ser(v) + valrest));
    lemma_scan_body_extend(k + seq![34u8], seq![58u8] + ser(v) + valrest);
    assert(scan_body(t.skip(1)) == Some(k.len() as int));
    assert(t.skip(1).take(k.len() as int) =~= k);
    assert(t.skip(1).skip(k.len() as int + 1) =~= seq![58u8] + ser(v) + valrest);
    lemma_skip_ws_id(t.skip(1).skip(k.len() as int + 1));
    let t2 = skip_ws(t.skip(1).skip(k.len() as int + 1));
    assert(t2 == t.skip(1).skip(k.len() as int + 1));
    assert(t2[0] == 58);
    assert(t2.skip(1) =~= ser(v) + valrest);
    lemma_ser_first(v);
    assert((ser(v) + valrest)[0] == ser(v)[0]);
    lemma_skip_ws_id(t2.skip(1));
    let t3 = skip_ws(t2.skip(1));
    assert(t3 == ser(v) + valrest);
    assert(t3.len() < t.len());
    lemma_parse_ser(v, valrest);
    assert(parse_value(t3) == Some((v, valrest)));
    lemma_skip_ws_id(valrest);
    assert(skip_ws(valrest) == valrest);
    if m.len() == 1 {
        assert(valrest[0] == 125);
        assert(valrest.skip(1) =~= rest);
        assert(seq![(k, v)] =~= m);
    } else {
        assert(valrest[0] == 44);
        let t6 = valrest.skip(1);
        assert(t6 =~= ser_membs(m.skip(1)) + seq![125u8] + rest);
        assert(m.skip(1).len() >= 1);
        assert(t6[0] == 34) by {
            if m.skip(1).len() == 1 {
                assert(ser_membs(m.skip(1)) == ser_memb(m.skip(1)[0]));
            } else {
                assert(ser_membs(m.skip(1)) == ser_memb(m.skip(1)[0]) + seq![44u8] + ser_membs(
                    m.skip(1).skip(1),
                ));
            }
            assert(ser_memb(m.skip(1)[0])[0] == 34);
        }
        lemma_skip_ws_id(t6);
        assert(skip_ws(t6) == t6);
        assert(t6.len() < t.len());
        assert(unique_keys(m.skip(1)));
        assert(forall|i: int|
            0 <= i < m.skip(1).len() ==> valid_body((#[trigger] m.skip(1)[i]).0) && wf(
                m.skip(1)[i].1,
            ));
        lemma_parse_ser_membs(m.skip(1), rest);
        assert(parse_membs(t6) == Some((m.skip(1), rest)));
        assert(!obj_has(m.skip(1), k)) by {
            if obj_has(m.skip(1), k) {
                let q = choose|q: int|
                    0 <= q < m.skip(1).len() && (#[trigger] m.skip(1)[q]).0 == k;
                assert(m[q + 1].0 == k);
                assert(m[0].0 == k);
            }
        }
        assert(seq![(k, v)] + m.skip(1) =~= m);
    }
}

/// Serializing a well-formed document and parsing the text back yields
/// exactly that document.
pub proof fn lemma_parse_ser_doc(v: JsonV)
    requires
        wf(v),
    ensures
        parse_doc(ser_doc(v)) == Some(v),
{
    lemma_ser_first(v);
    lemma_skip_ws_id(ser(v));
    assert(ser(v) + Seq::<u8>::empty() =~= ser(v));
    lemma_parse_ser(v, Seq::empty());
    assert(parse_value(skip_ws(ser_doc(v))) == Some((v, Seq::<u8>::empty())));
    assert(skip_ws(Seq::<u8>::empty()).len() == 0);
}

/// Re-serialization is idempotent: the text that `save` writes for a
/// loaded document, when loaded and saved once more, is byte-identical.
pub proof fn lemma_save_load_idempotent(bytes: Seq<u8>)
    requires
        parse_doc(bytes) is Some,
    ensures
        parse_doc(ser_doc(parse_doc(bytes)->Some_0)) == Some(parse_doc(bytes)->Some_0),
        ser_doc(parse_doc(ser_doc(parse_doc(bytes)->Some_0))->Some_0) == ser_doc(
            parse_doc(bytes)->Some_0,
        ),
{
    lemma_parse_doc_wf(bytes);
    lemma_parse_ser_doc(parse_doc(bytes)->Some_0);
}

} // verus!
