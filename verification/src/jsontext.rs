//! The executable reader and writer of the manifest textual form.
//!
//! Both sides are verified against the grammar of [`crate::json`]: the
//! writer produces exactly the serialized form of the node it is given,
//! and the reader returns exactly the node that the specification parser
//! assigns to the input, or fails exactly where the specification parser
//! does.

use vstd::prelude::*;

use crate::bytestr::bytes_eq;
use crate::bytestr::copy_range;
use crate::bytestr::push_all;
use crate::json::Json;
use crate::json::JsonV;
use crate::json::count_digits;
use crate::json::is_ws;
use crate::json::jv;
use crate::json::jv_list;
use crate::json::jv_pairs;
use crate::json::lemma_jv_list_points;
use crate::json::lemma_jv_pairs_points;
use crate::json::null_lit;
use crate::json::true_lit;
use crate::json::false_lit;
use crate::json::obj_has;
use crate::json::parse_doc;
use crate::json::parse_items;
use crate::json::parse_membs;
use crate::json::parse_value;
use crate::json::scan_body;
use crate::json::scan_num;
use crate::json::ser;
use crate::json::ser_doc;
use crate::json::ser_items;
use crate::json::ser_memb;
use crate::json::ser_membs;
use crate::json::skip_ws;

verus! {

// ---------------------------------------------------------------------
// Writer.
// ---------------------------------------------------------------------

/// Appends the textual form of `j` to `out`.
pub fn write_value(j: &Json, out: &mut Vec<u8>)
    ensures
        final(out)@ == old(out)@ + ser(jv(*j)),
    decreases *j, 1int,
{
    match j {
        Json::Null => {
            out.push(110);
            out.push(117);
            out.push(108);
            out.push(108);
            assert(out@ =~= old(out)@ + null_lit());
        },
        Json::Bool(b) => {
            if *b {
                out.push(116);
                out.push(114);
                out.push(117);
                out.push(101);
                assert(out@ =~= old(out)@ + true_lit());
            } else {
                out.push(102);
                out.push(97);
                out.push(108);
                out.push(115);
                out.push(101);
                assert(out@ =~= old(out)@ + false_lit());
            }
        },
        Json::Num(r) => {
            push_all(out, r.as_slice());
        },
        Json::Str(r) => {
            out.push(34);
            push_all(out, r.as_slice());
            out.push(34);
            assert(out@ =~= old(out)@ + (seq![34u8] + r@ + seq![34u8]));
        },
        Json::Arr(v) => {
            out.push(91);
            if v.len() > 0 {
                write_items(v, 0, out);
            }
            out.push(93);
            assert(v@.skip(0) =~= v@);
            assert(out@ =~= old(out)@ + (seq![91u8] + ser_items(jv_list(v@)) + seq![93u8]));
        },
        Json::Obj(m) => {
            out.push(123);
            if m.len() > 0 {
                write_membs(m, 0, out);
            }
            out.push(125);
            assert(m@.skip(0) =~= m@);
            assert(out@ =~= old(out)@ + (seq![123u8] + ser_membs(jv_pairs(m@)) + seq![125u8]));
        },
    }
}

/// Appends the comma-separated forms of `items[i..]` to `out`.
fn write_items(items: &Vec<Json>, i: usize, out: &mut Vec<u8>)
    requires
        i < items@.len(),
    ensures
        final(out)@ == old(out)@ + ser_items(jv_list(items@.skip(i as int))),
    decreases *items, items@.len() - i,
{
    proof {
        lemma_jv_list_points(items@.skip(i as int));
    }
    let n = items.len();
    write_value(&items[i], out);
    if i + 1 < n {
        out.push(44);
        write_items(items, i + 1, out);
        proof {
            let s = jv_list(items@.skip(i as int));
            assert(items@.skip(i as int).skip(1) =~= items@.skip(i + 1));
            assert(s[0] == jv(items@[i as int]));
            assert(jv_list(items@.skip(i as int)).skip(1) =~= jv_list(items@.skip(i + 1))) by {
                lemma_jv_list_points(items@.skip(i as int));
                lemma_jv_list_points(items@.skip(i + 1));
            }
            assert(ser_items(s) == ser(s[0]) + seq![44u8] + ser_items(s.skip(1)));
        }
        assert(out@ =~= old(out)@ + ser_items(jv_list(items@.skip(i as int))));
    } else {
        proof {
            let s = jv_list(items@.skip(i as int));
            assert(s.len() == 1);
            assert(s[0] == jv(items@[i as int]));
            assert(ser_items(s) == ser(s[0]));
        }
        assert(out@ =~= old(out)@ + ser_items(jv_list(items@.skip(i as int))));
    }
}

/// Appends the comma-separated forms of the entries `m[i..]` to `out`.
fn write_membs(m: &Vec<(Vec<u8>, Json)>, i: usize, out: &mut Vec<u8>)
    requires
        i < m@.len(),
    ensures
        final(out)@ == old(out)@ + ser_membs(jv_pairs(m@.skip(i as int))),
    decreases *m, m@.len() - i,
{
    proof {
        lemma_jv_pairs_points(m@.skip(i as int));
    }
    out.push(34);
    push_all(out, m[i].0.as_slice());
    out.push(34);
    out.push(58);
    let n = m.len();
    write_value(&m[i].1, out);
    proof {
        let s = jv_pairs(m@.skip(i as int));
        assert(s[0] == (m@[i as int].0@, jv(m@[i as int].1)));
        assert(out@ =~= old(out)@ + ser_memb(s[0]));
    }
    if i + 1 < n {
        out.push(44);
        write_membs(m, i + 1, out);
        proof {
            let s = jv_pairs(m@.skip(i as int));
            assert(m@.skip(i as int).skip(1) =~= m@.skip(i + 1));
            assert(jv_pairs(m@.skip(i as int)).skip(1) =~= jv_pairs(m@.skip(i + 1))) by {
                lemma_jv_pairs_points(m@.skip(i as int));
                lemma_jv_pairs_points(m@.skip(i + 1));
            }
            assert(ser_membs(s) == ser_memb(s[0]) + seq![44u8] + ser_membs(s.skip(1)));
        }
        assert(out@ =~= old(out)@ + ser_membs(jv_pairs(m@.skip(i as int))));
    } else {
        proof {
            let s = jv_pairs(m@.skip(i as int));
            assert(s.len() == 1);
            assert(ser_membs(s) == ser_memb(s[0]));
        }
        assert(out@ =~= old(out)@ + ser_membs(jv_pairs(m@.skip(i as int))));
    }
}

/// The full textual form of a node.
pub fn render(j: &Json) -> (r: Vec<u8>)
    ensures
        r@ == ser_doc(jv(*j)),
{
    let mut out: Vec<u8> = Vec::new();
    write_value(j, &mut out);
    assert(out@ =~= ser(jv(*j)));
    out
}

// ---------------------------------------------------------------------
// Reader.
// ---------------------------------------------------------------------

/// Whether `b` is insignificant whitespace.
fn ws_byte(b: u8) -> (r: bool)
    ensures
        r == is_ws(b),
{
    b == 32 || b == 9 || b == 10 || b == 13
}

/// Whether `b` may follow a backslash as a one-byte escape.
fn simple_esc_byte(b: u8) -> (r: bool)
    ensures
        r == crate::json::is_simple_esc(b),
{
    b == 34 || b == 92 || b == 47 || b == 98 || b == 102 || b == 110 || b == 114 || b == 116
}

/// Whether `b` is a hexadecimal digit.
fn hex_byte(b: u8) -> (r: bool)
    ensures
        r == crate::json::is_hex(b),
{
    (48 <= b && b <= 57) || (65 <= b && b <= 70) || (97 <= b && b <= 102)
}

/// Whether `b` is a decimal digit.
fn digit_byte(b: u8) -> (r: bool)
    ensures
        r == crate::json::is_digit(b),
{
    48 <= b && b <= 57
}

/// The first position at or after `pos` whose byte is not whitespace.
fn skip_ws_at(s: &Vec<u8>, pos: usize) -> (r: usize)
    requires
        pos <= s@.len(),
    ensures
        pos <= r <= s@.len(),
        skip_ws(s@.skip(pos as int)) == s@.skip(r as int),
{
    let n = s.len();
    let mut p = pos;
    while p < n && ws_byte(s[p])
        invariant
            pos <= p <= n,
            n == s@.len(),
            skip_ws(s@.skip(pos as int)) == skip_ws(s@.skip(p as int)),
        decreases n - p,
    {
        assert(s@.skip(p as int).skip(1) =~= s@.skip(p + 1));
        p = p + 1;
    }
    r_skip_done(s, p);
    p
}

/// After the scan stops, the suffix at `p` starts with no whitespace.
fn r_skip_done(s: &Vec<u8>, p: usize)
    requires
        p <= s@.len(),
        p == s@.len() || !is_ws(s@[p as int]),
    ensures
        skip_ws(s@.skip(p as int)) == s@.skip(p as int),
{
}

/// Scans a string body from `pos`; on success returns the absolute
/// position of the closing quote.
fn scan_body_at(s: &Vec<u8>, pos: usize) -> (r: Option<usize>)
    requires
        pos <= s@.len(),
    ensures
        match r {
            Some(e) => pos <= e < s@.len() && s@[e as int] == 34 && scan_body(
                s@.skip(pos as int),
            ) == Some((e - pos) as int),
            None => scan_body(s@.skip(pos as int)) is None,
        },
{
    let n = s.len();
    let mut p = pos;
    loop
        invariant
            pos <= p <= n,
            n == s@.len(),
            (match scan_body(s@.skip(p as int)) {
                Some(m) => scan_body(s@.skip(pos as int)) == Some(m + p - pos),
                None => scan_body(s@.skip(pos as int)) is None,
            }),
        decreases n - p,
    {
        if p >= n {
            return None;
        }
        let b = s[p];
        if b == 34 {
            return Some(p);
        }
        if b == 92 {
            if p + 1 < n && simple_esc_byte(s[p + 1]) {
                assert(s@.skip(p as int).skip(2) =~= s@.skip(p + 2));
                p = p + 2;
            } else if n - p > 5 && s[p + 1] == 117 && hex_byte(s[p + 2]) && hex_byte(s[p + 3])
                && hex_byte(s[p + 4]) && hex_byte(s[p + 5]) {
                assert(s@.skip(p as int).skip(6) =~= s@.skip(p + 6));
                p = p + 6;
            } else {
                return None;
            }
        } else if b < 32 {
            return None;
        } else {
            assert(s@.skip(p as int).skip(1) =~= s@.skip(p + 1));
            p = p + 1;
        }
    }
}

/// The first position at or after `pos` whose byte is not a decimal digit.
fn count_digits_at(s: &Vec<u8>, pos: usize) -> (r: usize)
    requires
        pos <= s@.len(),
    ensures
        pos <= r <= s@.len(),
        count_digits(s@.skip(pos as int)) == r - pos,
{
    let n = s.len();
    let mut p = pos;
    while p < n && digit_byte(s[p])
        invariant
            pos <= p <= n,
            n == s@.len(),
            count_digits(s@.skip(pos as int)) == (p - pos) + count_digits(s@.skip(p as int)),
        decreases n - p,
    {
        assert(s@.skip(p as int).skip(1) =~= s@.skip(p + 1));
        p = p + 1;
    }
    p
}

/// Scans a numeric literal from `pos`; on success returns the absolute
/// position just past the literal.
#[verifier::rlimit(50)]
fn scan_num_at(s: &Vec<u8>, pos: usize) -> (r: Option<usize>)
    requires
        pos <= s@.len(),
    ensures
        match r {
            Some(e) => pos < e <= s@.len() && scan_num(s@.skip(pos as int)) == Some(
                (e - pos) as int,
            ),
            None => scan_num(s@.skip(pos as int)) is None,
        },
{
    let n = s.len();
    let ghost t = s@.skip(pos as int);
    let sgn: usize = if pos < n && s[pos] == 45 {
        1
    } else {
        0
    };
    let p1 = pos + sgn;
    assert(t.skip(sgn as int) =~= s@.skip(p1 as int));
    let p2 = count_digits_at(s, p1);
    if p2 == p1 {
        return None;
    }
    let ghost t2 = t.skip(sgn as int).skip((p2 - p1) as int);
    assert(t2 =~= s@.skip(p2 as int));
    let p3 = if n - p2 >= 2 && s[p2] == 46 && digit_byte(s[p2 + 1]) {
        let q = count_digits_at(s, p2 + 1);
        assert(t2.skip(1) =~= s@.skip(p2 + 1));
        q
    } else {
        p2
    };
    let ghost t3 = t2.skip((p3 - p2) as int);
    assert(t3 =~= s@.skip(p3 as int));
    if p3 < n && (s[p3] == 101 || s[p3] == 69) {
        let g: usize = if p3 + 1 < n && (s[p3 + 1] == 43 || s[p3 + 1] == 45) {
            1
        } else {
            0
        };
        assert(t3.skip(1 + g) =~= s@.skip((p3 + 1 + g) as int));
        let p4 = count_digits_at(s, p3 + 1 + g);
        if p4 == p3 + 1 + g {
            return None;
        }
        Some(p4)
    } else {
        Some(p3)
    }
}

/// Whether the parsed entries already hold the key `k`.
pub(crate) fn has_key(ms: &Vec<(Vec<u8>, Json)>, k: &Vec<u8>) -> (r: bool)
    ensures
        r == obj_has(jv_pairs(ms@), k@),
{
    proof {
        lemma_jv_pairs_points(ms@);
    }
    let n = ms.len();
    let mut i: usize = 0;
    while i < n
        invariant
            0 <= i <= n,
            n == ms@.len(),
            jv_pairs(ms@).len() == n,
            forall|q: int| 0 <= q < n ==> (#[trigger] jv_pairs(ms@)[q]).0 == ms@[q].0@,
            forall|q: int| 0 <= q < i ==> (#[trigger] jv_pairs(ms@)[q]).0 != k@,
        decreases n - i,
    {
        if bytes_eq(&ms[i].0, k) {
            assert(jv_pairs(ms@)[i as int].0 == k@);
            return true;
        }
        i = i + 1;
    }
    false
}

/// Reads one node starting exactly at `pos`, as the grammar's
/// [`parse_value`] describes.
pub fn parse_value_at(s: &Vec<u8>, pos: usize) -> (r: Option<(Json, usize)>)
    requires
        pos <= s@.len(),
    ensures
        match r {
            Some(jp) => pos <= jp.1 <= s@.len() && parse_value(s@.skip(pos as int)) == Some(
                (jv(jp.0), s@.skip(jp.1 as int)),
            ),
            None => parse_value(s@.skip(pos as int)) is None,
        },
    decreases s@.len() - pos, 1int,
{
    let n = s.len();
    let ghost t = s@.skip(pos as int);
    if pos >= n {
        return None;
    }
    let b = s[pos];
    if b == 110 {
        if n - pos >= 4 {
            if s[pos + 1] == 117 && s[pos + 2] == 108 && s[pos + 3] == 108 {
                proof {
                    assert(t.take(4) =~= null_lit());
                    assert(t.skip(4) =~= s@.skip(pos + 4));
                }
                Some((Json::Null, pos + 4))
            } else {
                proof {
                    assert(t.take(4) != null_lit()) by {
                        assert(t.take(4)[1] == s@[pos + 1]);
                        assert(t.take(4)[2] == s@[pos + 2]);
                        assert(t.take(4)[3] == s@[pos + 3]);
                        assert(null_lit()[1] == 117 && null_lit()[2] == 108 && null_lit()[3]
                            == 108);
                    }
                }
                None
            }
        } else {
            None
        }
    } else if b == 116 {
        if n - pos >= 4 {
            if s[pos + 1] == 114 && s[pos + 2] == 117 && s[pos + 3] == 101 {
                proof {
                    assert(t.take(4) =~= true_lit());
                    assert(t.skip(4) =~= s@.skip(pos + 4));
                }
                Some((Json::Bool(true), pos + 4))
            } else {
                proof {
                    assert(t.take(4) != true_lit()) by {
                        assert(t.take(4)[1] == s@[pos + 1]);
                        assert(t.take(4)[2] == s@[pos + 2]);
                        assert(t.take(4)[3] == s@[pos + 3]);
                        assert(true_lit()[1] == 114 && true_lit()[2] == 117 && true_lit()[3]
                            == 101);
                    }
                }
                None
            }
        } else {
            None
        }
    } else if b == 102 {
        if n - pos >= 5 {
            if s[pos + 1] == 97 && s[pos + 2] == 108 && s[pos + 3] == 115 && s[pos + 4] == 101 {
                proof {
                    assert(t.take(5) =~= false_lit());
                    assert(t.skip(5) =~= s@.skip(pos + 5));
                }
                Some((Json::Bool(false), pos + 5))
            } else {
                proof {
                    assert(t.take(5) != false_lit()) by {
                        assert(t.take(5)[1] == s@[pos + 1]);
                        assert(t.take(5)[2] == s@[pos + 2]);
                        assert(t.take(5)[3] == s@[pos + 3]);
                        assert(t.take(5)[4] == s@[pos + 4]);
                        assert(false_lit()[1] == 97 && false_lit()[2] == 108 && false_lit()[3]
                            == 115 && false_lit()[4] == 101);
                    }
                }
                None
            }
        } else {
            None
        }
    } else if b == 34 {
        assert(t.skip(1) =~= s@.skip(pos + 1));
        match scan_body_at(s, pos + 1) {
            None => None,
            Some(e) => {
                let body = copy_range(s, pos + 1, e);
                proof {
                    let m = (e - (pos + 1)) as int;
                    assert(t.skip(1).take(m) =~= s@.subrange(pos + 1, e as int));
                    assert(t.skip(1).skip(m + 1) =~= s@.skip(e + 1));
                }
                Some((Json::Str(body), e + 1))
            },
        }
    } else if b == 91 {
        assert(t.skip(1) =~= s@.skip(pos + 1));
        let q1 = skip_ws_at(s, pos + 1);
        if q1 < n && s[q1] == 93 {
            let empty_items: Vec<Json> = Vec::new();
            proof {
                assert(s@.skip(q1 as int).skip(1) =~= s@.skip(q1 + 1));
                assert(jv_list(empty_items@) =~= Seq::<JsonV>::empty());
            }
            Some((Json::Arr(empty_items), q1 + 1))
        } else if q1 > pos {
            match parse_items_at(s, q1) {
                None => None,
                Some((vs, q2)) => Some((Json::Arr(vs), q2)),
            }
        } else {
            None
        }
    } else if b == 123 {
        assert(t.skip(1) =~= s@.skip(pos + 1));
        let q1 = skip_ws_at(s, pos + 1);
        if q1 < n && s[q1] == 125 {
            let empty_membs: Vec<(Vec<u8>, Json)> = Vec::new();
            proof {
                assert(s@.skip(q1 as int).skip(1) =~= s@.skip(q1 + 1));
                assert(jv_pairs(empty_membs@) =~= Seq::<(Seq<u8>, JsonV)>::empty());
            }
            Some((Json::Obj(empty_membs), q1 + 1))
        } else if q1 > pos {
            match parse_membs_at(s, q1) {
                None => None,
                Some((ms, q2)) => Some((Json::Obj(ms), q2)),
            }
        } else {
            None
        }
    } else {
        match scan_num_at(s, pos) {
            None => None,
            Some(e) => {
                let raw = copy_range(s, pos, e);
                proof {
                    assert(t.take((e - pos) as int) =~= s@.subrange(pos as int, e as int));
                    assert(t.skip((e - pos) as int) =~= s@.skip(e as int));
                }
                Some((Json::Num(raw), e))
            },
        }
    }
}

/// Reads a nonempty node list up to and including the closing `]`.
fn parse_items_at(s: &Vec<u8>, pos: usize) -> (r: Option<(Vec<Json>, usize)>)
    requires
        pos <= s@.len(),
    ensures
        match r {
            Some(vp) => pos <= vp.1 <= s@.len() && parse_items(s@.skip(pos as int)) == Some(
                (jv_list(vp.0@), s@.skip(vp.1 as int)),
            ),
            None => parse_items(s@.skip(pos as int)) is None,
        },
    decreases s@.len() - pos, 2int,
{
    let n = s.len();
    let ghost t = s@.skip(pos as int);
    match parse_value_at(s, pos) {
        None => None,
        Some((v, q2)) => {
            let q3 = skip_ws_at(s, q2);
            if q3 < n && s[q3] == 44 {
                assert(s@.skip(q3 as int).skip(1) =~= s@.skip(q3 + 1));
                let q4 = skip_ws_at(s, q3 + 1);
                if q4 > pos {
                    match parse_items_at(s, q4) {
                        None => None,
                        Some((vs, q5)) => {
                            let ghost tail = vs@;
                            let mut vs2 = vs;
                            vs2.insert(0, v);
                            proof {
                                assert(vs2@[0] == v);
                                assert(vs2@.skip(1) =~= tail);
                                assert(jv_list(vs2@) == seq![jv(v)] + jv_list(tail));
                            }
                            Some((vs2, q5))
                        },
                    }
                } else {
                    None
                }
            } else if q3 < n && s[q3] == 93 {
                assert(s@.skip(q3 as int).skip(1) =~= s@.skip(q3 + 1));
                let mut single: Vec<Json> = Vec::new();
                single.push(v);
                proof {
                    assert(single@[0] == v);
                    assert(single@.skip(1) =~= Seq::<Json>::empty());
                    assert(jv_list(single@.skip(1)) == Seq::<JsonV>::empty());
                    assert(jv_list(single@) =~= seq![jv(v)]);
                }
                Some((single, q3 + 1))
            } else {
                None
            }
        },
    }
}

/// Reads a nonempty entry list up to and including the closing `}`.
fn parse_membs_at(s: &Vec<u8>, pos: usize) -> (r: Option<(Vec<(Vec<u8>, Json)>, usize)>)
    requires
        pos <= s@.len(),
    ensures
        match r {
            Some(mp) => pos <= mp.1 <= s@.len() && parse_membs(s@.skip(pos as int)) == Some(
                (jv_pairs(mp.0@), s@.skip(mp.1 as int)),
            ),
            None => parse_membs(s@.skip(pos as int)) is None,
        },
    decreases s@.len() - pos, 2int,
{
    let n = s.len();
    let ghost t = s@.skip(pos as int);
    if pos >= n || s[pos] != 34 {
        return None;
    }
    assert(t.skip(1) =~= s@.skip(pos + 1));
    match scan_body_at(s, pos + 1) {
        None => None,
        Some(e) => {
            let k = copy_range(s, pos + 1, e);
            let ghost m = (e - (pos + 1)) as int;
            proof {
                assert(t.skip(1).take(m) =~= s@.subrange(pos + 1, e as int));
                assert(t.skip(1).skip(m + 1) =~= s@.skip(e + 1));
            }
            let q2 = skip_ws_at(s, e + 1);
            if q2 < n && s[q2] == 58 {
                assert(s@.skip(q2 as int).skip(1) =~= s@.skip(q2 + 1));
                let q3 = skip_ws_at(s, q2 + 1);
                if q3 > pos {
                    match parse_value_at(s, q3) {
                        None => None,
                        Some((v, q4)) => {
                            let q5 = skip_ws_at(s, q4);
                            if q5 < n && s[q5] == 44 {
                                assert(s@.skip(q5 as int).skip(1) =~= s@.skip(q5 + 1));
                                let q6 = skip_ws_at(s, q5 + 1);
                                if q6 > pos {
                                    match parse_membs_at(s, q6) {
                                        None => None,
                                        Some((ms, q7)) => {
                                            if has_key(&ms, &k) {
                                                None
                                            } else {
                                                let ghost tail = ms@;
                                                let mut ms2 = ms;
                                                ms2.insert(0, (k, v));
                                                proof {
                                                    assert(ms2@[0].0@ == s@.subrange(
                                                        pos + 1,
                                                        e as int,
                                                    ));
                                                    assert(ms2@.skip(1) =~= tail);
                                                    assert(jv_pairs(ms2@) == seq![
                                                        (ms2@[0].0@, jv(ms2@[0].1)),
                                                    ] + jv_pairs(tail));
                                                }
                                                Some((ms2, q7))
                                            }
                                        },
                                    }
                                } else {
                                    None
                                }
                            } else if q5 < n && s[q5] == 125 {
                                assert(s@.skip(q5 as int).skip(1) =~= s@.skip(q5 + 1));
                                let mut single: Vec<(Vec<u8>, Json)> = Vec::new();
                                single.push((k, v));
                                proof {
                                    assert(single@[0] == (k, v));
                                    assert(single@.skip(1) =~= Seq::<(Vec<u8>, Json)>::empty());
                                    assert(jv_pairs(single@.skip(1)) == Seq::<(Seq<u8>, JsonV)>::empty());
                                    assert(jv_pairs(single@) =~= seq![(single@[0].0@, jv(v))]);
                                }
                                Some((single, q5 + 1))
                            } else {
                                None
                            }
                        },
                    }
                } else {
                    None
                }
            } else {
                None
            }
        },
    }
}

/// Reads a whole document: one node surrounded by whitespace only.
pub fn parse_document(s: &Vec<u8>) -> (r: Option<Json>)
    ensures
        match r {
            Some(j) => parse_doc(s@) == Some(jv(j)),
            None => parse_doc(s@) is None,
        },
{
    assert(s@.skip(0) =~= s@);
    let q0 = skip_ws_at(s, 0);
    match parse_value_at(s, q0) {
        None => None,
        Some((j, p)) => {
            let q = skip_ws_at(s, p);
            if q == s.len() {
                assert(s@.skip(q as int).len() == 0);
                Some(j)
            } else {
                assert(s@.skip(q as int).len() > 0);
                None
            }
        },
    }
}


} // verus!
