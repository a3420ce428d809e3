//! Archive entry paths and their safe normalization.
//!
//! An archive entry declares its target as a `/`-separated byte path.
//! Before anything may be written under the destination root, that path is
//! resolved segment by segment: `.` and empty segments vanish, `..` pops
//! the segment before it, and a `..` with nothing left to pop means the
//! entry would escape the destination root.  Absolute paths and segments
//! holding a NUL, a backslash or a colon cannot be resolved to a safe
//! relative path.  Every unresolvable entry is reported as `None` and the
//! caller skips it; a `Some` result is a sequence of plain name segments
//! that, joined under the destination root, cannot leave it.

use vstd::prelude::*;

verus! {

/// The `/` path separator.
pub open spec fn sep() -> u8 {
    47
}

/// The one-byte segment `.`, which names the current directory.
pub open spec fn dot_seg() -> Seq<u8> {
    seq![46u8]
}

/// The two-byte segment `..`, which names the parent directory.
pub open spec fn dotdot_seg() -> Seq<u8> {
    seq![46u8, 46u8]
}

/// A byte that no safe segment may hold: NUL, `\` or `:` (the latter two
/// are separator and drive syntax on other platforms), or `/` itself.
pub open spec fn bad_seg_byte(b: u8) -> bool {
    b == 0 || b == 92 || b == 58 || b == sep()
}

/// A plain name segment: nonempty, not a directory reference, and free of
/// bytes with separator or drive meaning.  Joining plain segments under a
/// root directory can only name something inside that root.
pub open spec fn plain_seg(s: Seq<u8>) -> bool {
    &&& s.len() > 0
    &&& s != dot_seg()
    &&& s != dotdot_seg()
    &&& forall|i: int| 0 <= i < s.len() ==> !bad_seg_byte(#[trigger] s[i])
}

/// One resolution step: how a completed segment changes the stack of
/// segments resolved so far, or `None` if the entry cannot be resolved
/// to a safe relative path.
pub open spec fn apply_seg(stack: Seq<Seq<u8>>, cur: Seq<u8>) -> Option<Seq<Seq<u8>>> {
    if cur == dotdot_seg() {
        if stack.len() == 0 {
            None
        } else {
            Some(stack.drop_last())
        }
    } else if cur.len() == 0 || cur == dot_seg() {
        Some(stack)
    } else if exists|i: int| 0 <= i < cur.len() && bad_seg_byte(#[trigger] cur[i]) {
        None
    } else {
        Some(stack.push(cur))
    }
}

/// Resolves the suffix of an entry name starting at `i`, given the stack
/// of segments already resolved and the bytes of the currently open
/// segment.
pub open spec fn norm_from(name: Seq<u8>, i: int, stack: Seq<Seq<u8>>, cur: Seq<u8>) -> Option<
    Seq<Seq<u8>>,
>
    decreases name.len() - i,
{
    if i < 0 || i >= name.len() {
        apply_seg(stack, cur)
    } else if name[i] == sep() {
        match apply_seg(stack, cur) {
            None => None,
            Some(st) => norm_from(name, i + 1, st, Seq::empty()),
        }
    } else {
        norm_from(name, i + 1, stack, cur.push(name[i]))
    }
}

/// The resolved relative path of an archive entry, or `None` where the
/// entry must be skipped: an empty or absolute declared path, a segment
/// with separator or drive bytes in it, a resolution that escapes the
/// destination root, or one that ends on the root itself.
pub open spec fn norm_entry_path(name: Seq<u8>) -> Option<Seq<Seq<u8>>> {
    if name.len() == 0 || name[0] == sep() {
        None
    } else {
        match norm_from(name, 0, Seq::empty(), Seq::empty()) {
            None => None,
            Some(segs) => if segs.len() == 0 {
                None
            } else {
                Some(segs)
            },
        }
    }
}

/// An entry whose declared name ends in the separator stands for a
/// directory; every other entry stands for a file.
pub open spec fn entry_is_dir(name: Seq<u8>) -> bool {
    name.len() > 0 && name[name.len() - 1] == sep()
}

/// Every segment that resolution ever stacks is a plain name.
proof fn lemma_norm_from_plain(name: Seq<u8>, i: int, stack: Seq<Seq<u8>>, cur: Seq<u8>)
    requires
        forall|k: int| 0 <= k < stack.len() ==> plain_seg(#[trigger] stack[k]),
        norm_from(name, i, stack, cur) is Some,
    ensures
        forall|k: int|
            0 <= k < norm_from(name, i, stack, cur)->Some_0.len() ==> plain_seg(
                #[trigger] norm_from(name, i, stack, cur)->Some_0[k],
            ),
    decreases name.len() - i,
{
    if i < 0 || i >= name.len() {
        let r = apply_seg(stack, cur);
        if cur == dotdot_seg() {
            assert(forall|k: int|
                0 <= k < stack.drop_last().len() ==> plain_seg(#[trigger] stack.drop_last()[k]));
        } else if cur.len() == 0 || cur == dot_seg() {
        } else {
            let st = stack.push(cur);
            assert(plain_seg(cur));
            assert(forall|k: int| 0 <= k < st.len() ==> plain_seg(#[trigger] st[k]));
        }
    } else if name[i] == sep() {
        match apply_seg(stack, cur) {
            None => {},
            Some(st) => {
                if cur == dotdot_seg() {
                    assert(forall|k: int| 0 <= k < st.len() ==> plain_seg(#[trigger] st[k]));
                } else if cur.len() == 0 || cur == dot_seg() {
                } else {
                    assert(plain_seg(cur));
                    assert(forall|k: int| 0 <= k < st.len() ==> plain_seg(#[trigger] st[k]));
                }
                lemma_norm_from_plain(name, i + 1, st, Seq::empty());
            },
        }
    } else {
        lemma_norm_from_plain(name, i + 1, stack, cur.push(name[i]));
    }
}

/// A resolved entry path consists of plain name segments only: no segment
/// is empty, `.` or `..`, and none holds a separator, drive or NUL byte.
/// Joined under the destination root, such a path stays inside the root.
pub proof fn lemma_norm_entry_path_plain(name: Seq<u8>)
    requires
        norm_entry_path(name) is Some,
    ensures
        norm_entry_path(name)->Some_0.len() > 0,
        forall|k: int|
            0 <= k < norm_entry_path(name)->Some_0.len() ==> plain_seg(
                #[trigger] norm_entry_path(name)->Some_0[k],
            ),
{
    lemma_norm_from_plain(name, 0, Seq::empty(), Seq::empty());
}

/// Resolves an entry name, as [`norm_entry_path`] describes.
pub fn normalize_entry_path(name: &Vec<u8>) -> (r: Option<Vec<Vec<u8>>>)
    ensures
        match r {
            Some(segs) => norm_entry_path(name@) == Some(segs.deep_view()),
            None => norm_entry_path(name@) is None,
        },
{
    if name.len() == 0 || name[0] == 47 {
        return None;
    }
    let n = name.len();
    let mut i: usize = 0;
    let mut stack: Vec<Vec<u8>> = Vec::new();
    let mut cur: Vec<u8> = Vec::new();
    assert(stack.deep_view() =~= Seq::<Seq<u8>>::empty());
    while i < n
        invariant
            0 <= i <= n,
            n == name@.len(),
            norm_from(name@, 0, Seq::empty(), Seq::empty()) == norm_from(
                name@,
                i as int,
                stack.deep_view(),
                cur@,
            ),
        decreases n - i,
    {
        let b = name[i];
        if b == 47 {
            match apply_seg_exec(stack, cur) {
                None => {
                    return None;
                },
                Some(st) => {
                    stack = st;
                    cur = Vec::new();
                },
            }
        } else {
            cur.push(b);
        }
        i = i + 1;
    }
    let last = match apply_seg_exec(stack, cur) {
        None => {
            return None;
        },
        Some(st) => st,
    };
    if last.len() == 0 {
        None
    } else {
        Some(last)
    }
}

/// One executable resolution step; consumes the stack and the segment.
fn apply_seg_exec(stack: Vec<Vec<u8>>, cur: Vec<u8>) -> (r: Option<Vec<Vec<u8>>>)
    ensures
        match r {
            Some(st) => apply_seg(stack.deep_view(), cur@) == Some(st.deep_view()),
            None => apply_seg(stack.deep_view(), cur@) is None,
        },
{
    if is_dotdot(&cur) {
        if stack.len() == 0 {
            assert(stack.deep_view().len() == 0);
            None
        } else {
            let mut st = stack;
            let ghost pre = st.deep_view();
            st.pop();
            assert(st.deep_view() =~= pre.drop_last());
            Some(st)
        }
    } else if cur.len() == 0 || is_dot(&cur) {
        Some(stack)
    } else {
        let m = cur.len();
        let mut k: usize = 0;
        while k < m
            invariant
                0 <= k <= m,
                m == cur@.len(),
                forall|j: int| 0 <= j < k ==> !bad_seg_byte(#[trigger] cur@[j]),
            decreases m - k,
        {
            let b = cur[k];
            if b == 0 || b == 92 || b == 58 || b == 47 {
                return None;
            }
            k = k + 1;
        }
        let mut st = stack;
        let ghost pre = st.deep_view();
        st.push(cur);
        assert(cur.deep_view() =~= cur@);
        assert(st.deep_view() =~= pre.push(cur@));
        Some(st)
    }
}

/// Whether the bytes are exactly `.`.
fn is_dot(s: &Vec<u8>) -> (r: bool)
    ensures
        r == (s@ == dot_seg()),
{
    if s.len() == 1 && s[0] == 46 {
        assert(s@ =~= dot_seg());
        true
    } else {
        assert(s@ != dot_seg());
        false
    }
}

/// Whether the bytes are exactly `..`.
fn is_dotdot(s: &Vec<u8>) -> (r: bool)
    ensures
        r == (s@ == dotdot_seg()),
{
    if s.len() == 2 && s[0] == 46 && s[1] == 46 {
        assert(s@ =~= dotdot_seg());
        true
    } else {
        assert(s@ != dotdot_seg());
        false
    }
}

} // verus!
