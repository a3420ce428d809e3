//! The manifest document model.
//!
//! A manifest is held as an ordered tree of nodes: scalars (null, booleans,
//! numbers, strings), arrays, and tables whose entries keep their textual
//! order.  Numbers and string bodies are kept exactly as they stand in the
//! document text (string bodies in escaped form, without the surrounding
//! quotes), so re-serializing an unedited document reproduces every token
//! it was parsed from.  The serializer writes the canonical compact form
//! deliberately: tokens only, with no whitespace between them.  Node
//! values, entry order and every untouched token survive a round trip
//! exactly; only the insignificant whitespace between tokens is
//! normalized away, once, and re-serialization is then idempotent.  This
//! module defines the tree, its mathematical mirror, the grammar of the
//! textual form as specification functions, and the well-formedness
//! predicate that parsing establishes and every edit preserves.

use vstd::prelude::*;

verus! {

/// An executable manifest node.
#[derive(Debug)]
pub enum Json {
    /// The literal `null`.
    Null,
    /// The literals `true` and `false`.
    Bool(bool),
    /// A numeric scalar, kept as its literal bytes.
    Num(Vec<u8>),
    /// A string scalar, kept as its escaped body without quotes.
    Str(Vec<u8>),
    /// An ordered array of nodes.
    Arr(Vec<Json>),
    /// An ordered table of key/value entries; keys are escaped bodies.
    Obj(Vec<(Vec<u8>, Json)>),
}

/// The mathematical mirror of [`Json`].
pub enum JsonV {
    /// The literal `null`.
    Null,
    /// The literals `true` and `false`.
    Bool(bool),
    /// A numeric scalar, as its literal bytes.
    Num(Seq<u8>),
    /// A string scalar, as its escaped body.
    Str(Seq<u8>),
    /// An ordered array of nodes.
    Arr(Seq<JsonV>),
    /// An ordered table of key/value entries.
    Obj(Seq<(Seq<u8>, JsonV)>),
}

/// The mirror of an executable node.
pub open spec fn jv(j: Json) -> JsonV
    decreases j, 1int,
{
    match j {
        Json::Null => JsonV::Null,
        Json::Bool(b) => JsonV::Bool(b),
        Json::Num(r) => JsonV::Num(r@),
        Json::Str(r) => JsonV::Str(r@),
        Json::Arr(v) => JsonV::Arr(jv_list(v@)),
        Json::Obj(m) => JsonV::Obj(jv_pairs(m@)),
    }
}

/// The mirror of a list of executable nodes.
pub open spec fn jv_list(s: Seq<Json>) -> Seq<JsonV>
    decreases s, 0int,
{
    if s.len() == 0 {
        Seq::empty()
    } else {
        seq![jv(s[0])] + jv_list(s.skip(1))
    }
}

/// The mirror of a list of executable table entries.
pub open spec fn jv_pairs(s: Seq<(Vec<u8>, Json)>) -> Seq<(Seq<u8>, JsonV)>
    decreases s, 0int,
{
    if s.len() == 0 {
        Seq::empty()
    } else {
        seq![(s[0].0@, jv(s[0].1))] + jv_pairs(s.skip(1))
    }
}

/// The mirror of a node list, entry by entry.
pub proof fn lemma_jv_list_points(s: Seq<Json>)
    ensures
        jv_list(s).len() == s.len(),
        forall|i: int| 0 <= i < s.len() ==> #[trigger] jv_list(s)[i] == jv(s[i]),
    decreases s.len(),
{
    if s.len() > 0 {
        lemma_jv_list_points(s.skip(1));
        assert forall|i: int| 0 <= i < s.len() implies #[trigger] jv_list(s)[i] == jv(s[i]) by {
            if i > 0 {
                assert(jv_list(s)[i] == jv_list(s.skip(1))[i - 1]);
                assert(s.skip(1)[i - 1] == s[i]);
            }
        }
    }
}

/// The mirror of an entry list, entry by entry.
pub proof fn lemma_jv_pairs_points(s: Seq<(Vec<u8>, Json)>)
    ensures
        jv_pairs(s).len() == s.len(),
        forall|i: int|
            0 <= i < s.len() ==> #[trigger] jv_pairs(s)[i] == (s[i].0@, jv(s[i].1)),
    decreases s.len(),
{
    if s.len() > 0 {
        lemma_jv_pairs_points(s.skip(1));
        assert forall|i: int|
            0 <= i < s.len() implies #[trigger] jv_pairs(s)[i] == (s[i].0@, jv(s[i].1)) by {
            if i > 0 {
                assert(jv_pairs(s)[i] == jv_pairs(s.skip(1))[i - 1]);
                assert(s.skip(1)[i - 1] == s[i]);
            }
        }
    }
}

/// Whether a table holds an entry under the given key.
pub open spec fn obj_has(m: Seq<(Seq<u8>, JsonV)>, k: Seq<u8>) -> bool {
    exists|i: int| 0 <= i < m.len() && (#[trigger] m[i]).0 == k
}

/// No two entries of the table share a key.
pub open spec fn unique_keys(m: Seq<(Seq<u8>, JsonV)>) -> bool {
    forall|i: int, j: int| 0 <= i < j < m.len() ==> (#[trigger] m[i]).0 != (#[trigger] m[j]).0
}

// ---------------------------------------------------------------------
// Byte classes of the textual form.
// ---------------------------------------------------------------------

/// Insignificant whitespace between tokens.
pub open spec fn is_ws(b: u8) -> bool {
    b == 32 || b == 9 || b == 10 || b == 13
}

/// An ASCII decimal digit.
pub open spec fn is_digit(b: u8) -> bool {
    48 <= b <= 57
}

/// An ASCII hexadecimal digit.
pub open spec fn is_hex(b: u8) -> bool {
    is_digit(b) || (65 <= b <= 70) || (97 <= b <= 102)
}

/// A byte that may follow a backslash as a one-byte escape:
/// `"`, `\`, `/`, `b`, `f`, `n`, `r`, `t`.
pub open spec fn is_simple_esc(b: u8) -> bool {
    b == 34 || b == 92 || b == 47 || b == 98 || b == 102 || b == 110 || b == 114 || b == 116
}

/// A byte that could extend a numeric literal to the right; a number may
/// only be followed by a byte outside this class.
pub open spec fn is_num_cont(b: u8) -> bool {
    is_digit(b) || b == 46 || b == 101 || b == 69 || b == 43 || b == 45
}

/// The bytes of `null`.
pub open spec fn null_lit() -> Seq<u8> {
    seq![110u8, 117u8, 108u8, 108u8]
}

/// The bytes of `true`.
pub open spec fn true_lit() -> Seq<u8> {
    seq![116u8, 114u8, 117u8, 101u8]
}

/// The bytes of `false`.
pub open spec fn false_lit() -> Seq<u8> {
    seq![102u8, 97u8, 108u8, 115u8, 101u8]
}

// ---------------------------------------------------------------------
// Token scanners.
// ---------------------------------------------------------------------

/// The suffix left after leading whitespace.
pub open spec fn skip_ws(t: Seq<u8>) -> Seq<u8>
    decreases t.len(),
{
    if t.len() > 0 && is_ws(t[0]) {
        skip_ws(t.skip(1))
    } else {
        t
    }
}

/// Scans a string body: the index of the closing quote, counted from the
/// start of `t`, or `None` where the body is unterminated, holds a control
/// byte, or holds a malformed escape.
pub open spec fn scan_body(t: Seq<u8>) -> Option<int>
    decreases t.len(),
{
    if t.len() == 0 {
        None
    } else if t[0] == 34 {
        Some(0)
    } else if t[0] == 92 {
        if t.len() >= 2 && is_simple_esc(t[1]) {
            match scan_body(t.skip(2)) {
                None => None,
                Some(n) => Some(n + 2),
            }
        } else if t.len() >= 6 && t[1] == 117 && is_hex(t[2]) && is_hex(t[3]) && is_hex(t[4])
            && is_hex(t[5]) {
            match scan_body(t.skip(6)) {
                None => None,
                Some(n) => Some(n + 6),
            }
        } else {
            None
        }
    } else if t[0] < 32 {
        None
    } else {
        match scan_body(t.skip(1)) {
            None => None,
            Some(n) => Some(n + 1),
        }
    }
}

/// A well-formed escaped string body: scanning it with a closing quote
/// appended consumes exactly the body.
pub open spec fn valid_body(r: Seq<u8>) -> bool {
    scan_body(r + seq![34u8]) == Some(r.len() as int)
}

/// The count of leading decimal digits.
pub open spec fn count_digits(t: Seq<u8>) -> int
    decreases t.len(),
{
    if t.len() > 0 && is_digit(t[0]) {
        1 + count_digits(t.skip(1))
    } else {
        0
    }
}

/// Scans a numeric literal: an optional minus sign, an integer part, an
/// optional fraction, an optional exponent.  Returns the literal's length,
/// or `None` where no literal starts here.
pub open spec fn scan_num(t: Seq<u8>) -> Option<int> {
    let s = if t.len() > 0 && t[0] == 45 {
        1int
    } else {
        0int
    };
    let t1 = t.skip(s);
    let d1 = count_digits(t1);
    if d1 == 0 {
        None
    } else {
        let t2 = t1.skip(d1);
        let f = if t2.len() >= 2 && t2[0] == 46 && is_digit(t2[1]) {
            1 + count_digits(t2.skip(1))
        } else {
            0int
        };
        let t3 = t2.skip(f);
        if t3.len() > 0 && (t3[0] == 101 || t3[0] == 69) {
            let g = if t3.len() > 1 && (t3[1] == 43 || t3[1] == 45) {
                1int
            } else {
                0int
            };
            let de = count_digits(t3.skip(1 + g));
            if de == 0 {
                None
            } else {
                Some(s + d1 + f + 1 + g + de)
            }
        } else {
            Some(s + d1 + f)
        }
    }
}

/// A well-formed numeric literal: scanning it consumes exactly the bytes
/// given.
pub open spec fn valid_num(r: Seq<u8>) -> bool {
    scan_num(r) == Some(r.len() as int)
}

/// Well-formedness of a node: every numeric literal and every escaped
/// body in the tree is well formed, and no table has two entries under
/// one key.
pub open spec fn wf(v: JsonV) -> bool
    decreases v,
{
    match v {
        JsonV::Null => true,
        JsonV::Bool(_) => true,
        JsonV::Num(r) => valid_num(r),
        JsonV::Str(r) => valid_body(r),
        JsonV::Arr(s) => forall|i: int| 0 <= i < s.len() ==> wf(#[trigger] s[i]),
        JsonV::Obj(m) => unique_keys(m) && forall|i: int|
            0 <= i < m.len() ==> valid_body((#[trigger] m[i]).0) && wf(m[i].1),
    }
}

// ---------------------------------------------------------------------
// The grammar, as a recursive-descent parser over suffixes.
// ---------------------------------------------------------------------

/// Parses one node at the very start of `t` (no leading whitespace) and
/// returns it with the unconsumed suffix.
pub open spec fn parse_value(t: Seq<u8>) -> Option<(JsonV, Seq<u8>)>
    decreases t.len(), 1int,
{
    if t.len() == 0 {
        None
    } else if t[0] == 110 {
        if t.len() >= 4 && t.take(4) == null_lit() {
            Some((JsonV::Null, t.skip(4)))
        } else {
            None
        }
    } else if t[0] == 116 {
        if t.len() >= 4 && t.take(4) == true_lit() {
            Some((JsonV::Bool(true), t.skip(4)))
        } else {
            None
        }
    } else if t[0] == 102 {
        if t.len() >= 5 && t.take(5) == false_lit() {
            Some((JsonV::Bool(false), t.skip(5)))
        } else {
            None
        }
    } else if t[0] == 34 {
        match scan_body(t.skip(1)) {
            None => None,
            Some(n) => Some((JsonV::Str(t.skip(1).take(n)), t.skip(1).skip(n + 1))),
        }
    } else if t[0] == 91 {
        let t1 = skip_ws(t.skip(1));
        if t1.len() > 0 && t1[0] == 93 {
            Some((JsonV::Arr(Seq::empty()), t1.skip(1)))
        } else if t1.len() < t.len() {
            match parse_items(t1) {
                None => None,
                Some((vs, t2)) => Some((JsonV::Arr(vs), t2)),
            }
        } else {
            None
        }
    } else if t[0] == 123 {
        let t1 = skip_ws(t.skip(1));
        if t1.len() > 0 && t1[0] == 125 {
            Some((JsonV::Obj(Seq::empty()), t1.skip(1)))
        } else if t1.len() < t.len() {
            match parse_membs(t1) {
                None => None,
                Some((m, t2)) => Some((JsonV::Obj(m), t2)),
            }
        } else {
            None
        }
    } else {
        match scan_num(t) {
            None => None,
            Some(n) => Some((JsonV::Num(t.take(n)), t.skip(n))),
        }
    }
}

/// Parses a nonempty comma-separated node list up to and including the
/// closing `]`.
pub open spec fn parse_items(t: Seq<u8>) -> Option<(Seq<JsonV>, Seq<u8>)>
    decreases t.len(), 2int,
{
    match parse_value(t) {
        None => None,
        Some((v, t2)) => {
            let t3 = skip_ws(t2);
            if t3.len() > 0 && t3[0] == 44 {
                let t4 = skip_ws(t3.skip(1));
                if t4.len() < t.len() {
                    match parse_items(t4) {
                        None => None,
                        Some((vs, t5)) => Some((seq![v] + vs, t5)),
                    }
                } else {
                    None
                }
            } else if t3.len() > 0 && t3[0] == 93 {
                Some((seq![v], t3.skip(1)))
            } else {
                None
            }
        },
    }
}

/// Parses a nonempty comma-separated entry list up to and including the
/// closing `}`.  A key that recurs is a parse error.
pub open spec fn parse_membs(t: Seq<u8>) -> Option<(Seq<(Seq<u8>, JsonV)>, Seq<u8>)>
    decreases t.len(), 2int,
{
    if t.len() == 0 || t[0] != 34 {
        None
    } else {
        match scan_body(t.skip(1)) {
            None => None,
            Some(n) => {
                let k = t.skip(1).take(n);
                let t2 = skip_ws(t.skip(1).skip(n + 1));
                if t2.len() > 0 && t2[0] == 58 {
                    let t3 = skip_ws(t2.skip(1));
                    if t3.len() < t.len() {
                        match parse_value(t3) {
                            None => None,
                            Some((v, t4)) => {
                                let t5 = skip_ws(t4);
                                if t5.len() > 0 && t5[0] == 44 {
                                    let t6 = skip_ws(t5.skip(1));
                                    if t6.len() < t.len() {
                                        match parse_membs(t6) {
                                            None => None,
                                            Some((ms, t7)) => if obj_has(ms, k) {
                                                None
                                            } else {
                                                Some((seq![(k, v)] + ms, t7))
                                            },
                                        }
                                    } else {
                                        None
                                    }
                                } else if t5.len() > 0 && t5[0] == 125 {
                                    Some((seq![(k, v)], t5.skip(1)))
                                } else {
                                    None
                                }
                            },
                        }
                    } else {
                        None
                    }
                } else {
                    None
                }
            },
        }
    }
}

/// Parses a whole document: one node, surrounded by whitespace only.
pub open spec fn parse_doc(t: Seq<u8>) -> Option<JsonV> {
    match parse_value(skip_ws(t)) {
        None => None,
        Some((v, r)) => if skip_ws(r).len() == 0 {
            Some(v)
        } else {
            None
        },
    }
}

// ---------------------------------------------------------------------
// The serializer: the compact textual form of a node.
// ---------------------------------------------------------------------

/// The canonical textual form of a node: its tokens in order, with no
/// whitespace between them.
pub open spec fn ser(v: JsonV) -> Seq<u8>
    decreases v, 1int,
{
    match v {
        JsonV::Null => null_lit(),
        JsonV::Bool(b) => if b {
            true_lit()
        } else {
            false_lit()
        },
        JsonV::Num(r) => r,
        JsonV::Str(r) => seq![34u8] + r + seq![34u8],
        JsonV::Arr(s) => seq![91u8] + ser_items(s) + seq![93u8],
        JsonV::Obj(m) => seq![123u8] + ser_membs(m) + seq![125u8],
    }
}

/// The comma-separated forms of a node list.
pub open spec fn ser_items(s: Seq<JsonV>) -> Seq<u8>
    decreases s, 0int,
{
    if s.len() == 0 {
        Seq::empty()
    } else if s.len() == 1 {
        ser(s[0])
    } else {
        ser(s[0]) + seq![44u8] + ser_items(s.skip(1))
    }
}

/// The comma-separated forms of a table's entries.
pub open spec fn ser_membs(m: Seq<(Seq<u8>, JsonV)>) -> Seq<u8>
    decreases m, 0int,
{
    if m.len() == 0 {
        Seq::empty()
    } else if m.len() == 1 {
        ser_memb(m[0])
    } else {
        ser_memb(m[0]) + seq![44u8] + ser_membs(m.skip(1))
    }
}

/// The form of one table entry: quoted key, colon, value.
pub open spec fn ser_memb(p: (Seq<u8>, JsonV)) -> Seq<u8>
    decreases p, 0int,
{
    seq![34u8] + p.0 + seq![34u8, 58u8] + ser(p.1)
}

/// The textual form of a whole document.
pub open spec fn ser_doc(v: JsonV) -> Seq<u8> {
    ser(v)
}

} // verus!
