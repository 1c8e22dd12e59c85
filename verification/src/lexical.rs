//! The shape of path text: components, canonical form, parent and child.

use vstd::prelude::*;

verus! {

/// The byte that separates the components of a path.
pub const SEPARATOR: u8 = 47;

/// The byte that the names `.` and `..` are made of.
pub const DOT: u8 = 46;

/// The byte that no path may hold.
pub const NUL: u8 = 0;

/// A name that can stand between two separators of a canonical path: not empty, free of
/// separators and NUL, and neither `.` nor `..`.
pub open spec fn is_component(name: Seq<u8>) -> bool {
    &&& name.len() > 0
    &&& forall|i: int| 0 <= i < name.len() ==> name[i] != SEPARATOR && name[i] != NUL
    &&& !(name.len() == 1 && name[0] == DOT)
    &&& !(name.len() == 2 && name[0] == DOT && name[1] == DOT)
}

/// Index of the last separator in `p`, or -1 where there is none.
pub open spec fn last_separator(p: Seq<u8>) -> int
    decreases p.len(),
{
    if p.len() == 0 {
        -1
    } else if p.last() == SEPARATOR {
        p.len() - 1
    } else {
        last_separator(p.drop_last())
    }
}

/// The text after the last separator of `p`.
pub open spec fn final_name(p: Seq<u8>) -> Seq<u8> {
    p.subrange(last_separator(p) + 1, p.len() as int)
}

/// Canonical absolute form: the root `/`, or the root followed by one component, or a
/// longer canonical path followed by a separator and one component.
pub open spec fn is_canonical(p: Seq<u8>) -> bool
    decreases p.len(),
{
    let cut = last_separator(p);
    if cut < 0 || cut >= p.len() {
        false
    } else if p.len() == 1 {
        true
    } else {
        &&& is_component(final_name(p))
        &&& (cut == 0 || (cut > 1 && is_canonical(p.subrange(0, cut))))
    }
}

/// `last_separator` finds `cut` when a separator stands there and none stands after it.
pub proof fn lemma_last_separator_at(p: Seq<u8>, cut: int)
    requires
        0 <= cut < p.len(),
        p[cut] == SEPARATOR,
        forall|k: int| cut < k < p.len() ==> p[k] != SEPARATOR,
    ensures
        last_separator(p) == cut,
    decreases p.len(),
{
    if p.last() != SEPARATOR {
        lemma_last_separator_at(p.drop_last(), cut);
    }
}

/// `last_separator` is -1 exactly on text without a separator, and else points at one
/// with none after it.
pub proof fn lemma_last_separator_bounds(p: Seq<u8>)
    ensures
        -1 <= last_separator(p) < p.len(),
        last_separator(p) >= 0 ==> p[last_separator(p)] == SEPARATOR,
        forall|k: int| last_separator(p) < k < p.len() ==> p[k] != SEPARATOR,
    decreases p.len(),
{
    if p.len() > 0 && p.last() != SEPARATOR {
        lemma_last_separator_bounds(p.drop_last());
        assert forall|k: int| last_separator(p) < k < p.len() implies p[k] != SEPARATOR by {
            if k < p.len() - 1 {
                assert(p[k] == p.drop_last()[k]);
            }
        }
    }
}

/// A segment that is `.` or `..` starts at index `s` of `p`.
pub open spec fn dot_segment_at(p: Seq<u8>, s: int) -> bool {
    ||| 0 <= s < p.len() && p[s] == DOT && (s + 1 == p.len() || p[s + 1] == SEPARATOR)
    ||| 0 <= s && s + 1 < p.len() && p[s] == DOT && p[s + 1] == DOT && (s + 2 == p.len() || p[s
        + 2] == SEPARATOR)
}

/// The canonical form said place by place: the text starts with a separator, holds no
/// NUL, does not end in a separator unless it is the root, has no two separators in a
/// row, and has no `.` or `..` segment.
pub open spec fn is_canonical_flat(p: Seq<u8>) -> bool {
    &&& p.len() >= 1
    &&& p[0] == SEPARATOR
    &&& forall|k: int| 0 <= k < p.len() ==> p[k] != NUL
    &&& (p.len() > 1 ==> p.last() != SEPARATOR)
    &&& forall|k: int|
        0 <= k < p.len() - 1 && #[trigger] p[k] == SEPARATOR ==> p[k + 1] != SEPARATOR
    &&& forall|s: int|
        1 <= s <= p.len() && p[s - 1] == SEPARATOR ==> !#[trigger] dot_segment_at(p, s)
}

/// The two descriptions of the canonical form agree.
pub proof fn lemma_canonical_flat(p: Seq<u8>)
    ensures
        is_canonical(p) == is_canonical_flat(p),
    decreases p.len(),
{
    lemma_last_separator_bounds(p);
    let cut = last_separator(p);
    let name = final_name(p);
    if p.len() <= 1 {
        if p.len() == 1 && p[0] == SEPARATOR {
            assert(!dot_segment_at(p, 1));
        }
    } else if cut < 0 {
    } else {
        let d = p.subrange(0, cut);
        if cut > 1 {
            lemma_canonical_flat(d);
        }
        if is_canonical(p) {
            lemma_canonical_shape(p);
            assert forall|k: int| 0 <= k < p.len() implies p[k] != NUL by {
                if k < cut {
                    assert(p[k] == d[k]);
                } else if k > cut {
                    assert(p[k] == name[k - cut - 1]);
                }
            }
            assert forall|k: int| 0 <= k < p.len() - 1 && #[trigger] p[k] == SEPARATOR implies p[k + 1]
                != SEPARATOR by {
                if k + 1 < cut {
                    assert(p[k] == d[k] && p[k + 1] == d[k + 1]);
                } else if k + 1 == cut {
                    lemma_canonical_shape(d);
                    assert(d.last() == p[k]);
                }
            }
            assert forall|s: int| 1 <= s <= p.len() && p[s - 1] == SEPARATOR implies !dot_segment_at(
                p,
                s,
            ) by {
                let k = s - 1;
                if k < cut {
                    assert(p[k] == d[k]);
                    if dot_segment_at(p, k + 1) {
                        assert(p[k + 1] == d[k + 1]);
                        if k + 2 < cut {
                            assert(p[k + 2] == d[k + 2]);
                        }
                        assert(dot_segment_at(d, k + 1));
                    }
                } else {
                    assert(k == cut);
                    if dot_segment_at(p, k + 1) {
                        assert(name[0] == p[k + 1]);
                        if name.len() > 1 {
                            assert(name[1] == p[k + 2]);
                        }
                    }
                }
            }
            assert(is_canonical_flat(p));
        }
        if is_canonical_flat(p) {
            assert(cut < p.len() - 1);
            assert forall|k: int| 0 <= k < name.len() implies name[k] != SEPARATOR && name[k]
                != NUL by {
                assert(name[k] == p[cut + 1 + k]);
            }
            assert(!dot_segment_at(p, cut + 1));
            assert(name[0] == p[cut + 1]);
            if name.len() == 2 {
                assert(name[1] == p[cut + 2]);
            }
            assert(is_component(name));
            assert(cut != 1);
            if cut > 1 {
                assert(d.last() == p[cut - 1]);
                assert forall|s: int| 1 <= s <= d.len() && d[s - 1] == SEPARATOR implies !dot_segment_at(
                    d,
                    s,
                ) by {
                    let k = s - 1;
                    assert(p[k] == d[k]);
                    assert(!dot_segment_at(p, k + 1));
                    if dot_segment_at(d, k + 1) {
                        assert(d[k + 1] == p[k + 1]);
                        if k + 2 < cut {
                            assert(d[k + 2] == p[k + 2]);
                        }
                        if k + 3 < cut {
                            assert(d[k + 3] == p[k + 3]);
                        }
                    }
                }
                assert forall|k: int| 0 <= k < d.len() - 1 && #[trigger] d[k] == SEPARATOR implies d[k + 1]
                    != SEPARATOR by {
                    assert(p[k] == d[k] && p[k + 1] == d[k + 1]);
                }
                assert forall|k: int| 0 <= k < d.len() implies d[k] != NUL by {
                    assert(p[k] == d[k]);
                }
                assert(d[0] == p[0]);
                assert(is_canonical_flat(d));
            }
            assert(is_canonical(p));
        }
    }
}

/// Dictionary order on byte strings: `a` comes before `b` where `a` ends first, or holds
/// the smaller byte at the first place where the two differ.
pub open spec fn comes_before(a: Seq<u8>, b: Seq<u8>) -> bool
    decreases a.len(),
{
    if b.len() == 0 {
        false
    } else if a.len() == 0 {
        true
    } else {
        a[0] < b[0] || (a[0] == b[0] && comes_before(
            a.subrange(1, a.len() as int),
            b.subrange(1, b.len() as int),
        ))
    }
}

/// Of two byte strings exactly one thing holds: they are equal, the first comes before
/// the second, or the second before the first.
pub proof fn lemma_order_is_total(a: Seq<u8>, b: Seq<u8>)
    ensures
        (a == b) || comes_before(a, b) || comes_before(b, a),
        !(a == b && comes_before(a, b)),
        !(a == b && comes_before(b, a)),
        !(comes_before(a, b) && comes_before(b, a)),
    decreases a.len(),
{
    if a.len() > 0 && b.len() > 0 {
        let ta = a.subrange(1, a.len() as int);
        let tb = b.subrange(1, b.len() as int);
        lemma_order_is_total(ta, tb);
        if a[0] == b[0] && ta == tb {
            assert(a.len() == ta.len() + 1 && b.len() == tb.len() + 1);
            assert forall|k: int| 0 <= k < a.len() implies a[k] == b[k] by {
                if k > 0 {
                    assert(a[k] == ta[k - 1]);
                    assert(b[k] == tb[k - 1]);
                }
            }
            assert(a =~= b);
        }
        if a == b {
            assert(ta == tb);
        }
    } else if a.len() == 0 && b.len() == 0 {
        assert(a =~= b);
    }
}

/// Number of leading bytes that belong to no component: the root separator, or a `.`
/// that opens a relative path.
pub open spec fn head_len(p: Seq<u8>) -> int {
    if p.len() > 0 && (p[0] == SEPARATOR || (p[0] == DOT && (p.len() == 1 || p[1]
        == SEPARATOR))) {
        1
    } else {
        0
    }
}

/// `p` without the empty segments and the `.` segments at its end; the first `lo`
/// bytes are never taken.
pub open spec fn trimmed(p: Seq<u8>, lo: int) -> Seq<u8>
    decreases p.len(),
{
    if lo < 0 || p.len() <= lo {
        p
    } else if p.last() == SEPARATOR {
        trimmed(p.drop_last(), lo)
    } else if p.last() == DOT && p.len() - 1 == lo {
        p.drop_last()
    } else if p.last() == DOT && p[p.len() - 2] == SEPARATOR {
        trimmed(p.subrange(0, p.len() - 2), lo)
    } else {
        p
    }
}

/// `p` without its last segment and the separator before it; the first `lo` bytes are
/// never taken.
pub open spec fn without_final(p: Seq<u8>, lo: int) -> Seq<u8>
    decreases p.len(),
{
    if lo < 0 || p.len() <= lo {
        p
    } else if p.last() == SEPARATOR {
        p.drop_last()
    } else {
        without_final(p.drop_last(), lo)
    }
}

/// The path one level up, for any text: `p` without its last component. Empty and `.`
/// segments count for nothing. There is none above the root, nor above the empty path.
pub open spec fn parent_of(p: Seq<u8>) -> Option<Seq<u8>> {
    let lo = head_len(p);
    let body = trimmed(p, lo);
    if body.len() > lo {
        Some(trimmed(without_final(body, lo), lo))
    } else if lo == 1 && p[0] == DOT {
        Some(Seq::empty())
    } else {
        None
    }
}

/// The directory part of a canonical path other than the root.
pub open spec fn canonical_parent(p: Seq<u8>) -> Seq<u8> {
    if last_separator(p) == 0 {
        p.subrange(0, 1)
    } else {
        p.subrange(0, last_separator(p))
    }
}

/// The text that names the entry `name` of the directory `dir`.
pub open spec fn child_text(dir: Seq<u8>, name: Seq<u8>) -> Seq<u8> {
    if dir.len() == 0 || dir.last() == SEPARATOR {
        dir + name
    } else {
        dir.push(SEPARATOR) + name
    }
}

/// `trimmed` and `without_final` hand back a prefix of their argument that keeps the
/// first `lo` bytes.
pub proof fn lemma_prefixes(p: Seq<u8>, lo: int)
    requires
        0 <= lo <= p.len(),
    ensures
        lo <= trimmed(p, lo).len() <= p.len(),
        trimmed(p, lo) == p.subrange(0, trimmed(p, lo).len() as int),
        lo <= without_final(p, lo).len() <= p.len(),
        p.len() > lo ==> without_final(p, lo).len() < p.len(),
        without_final(p, lo) == p.subrange(0, without_final(p, lo).len() as int),
    decreases p.len(),
{
    if p.len() > lo {
        lemma_prefixes(p.drop_last(), lo);
        let q = p.drop_last();
        assert(q.subrange(0, trimmed(q, lo).len() as int) =~= p.subrange(
            0,
            trimmed(q, lo).len() as int,
        ));
        assert(q.subrange(0, without_final(q, lo).len() as int) =~= p.subrange(
            0,
            without_final(q, lo).len() as int,
        ));
        assert(q =~= p.subrange(0, q.len() as int));
        if p.len() - 1 > lo {
            let r = p.subrange(0, p.len() - 2);
            lemma_prefixes(r, lo);
            assert(r.subrange(0, trimmed(r, lo).len() as int) =~= p.subrange(
                0,
                trimmed(r, lo).len() as int,
            ));
        }
    }
    assert(p =~= p.subrange(0, p.len() as int));
}

/// The parent of a path is a shorter prefix of it: climbing ends.
pub proof fn lemma_parent_is_shorter_prefix(p: Seq<u8>)
    ensures
        parent_of(p) matches Some(up) ==> up.len() < p.len() && up == p.subrange(
            0,
            up.len() as int,
        ),
{
    let lo = head_len(p);
    lemma_prefixes(p, lo);
    let body = trimmed(p, lo);
    if body.len() > lo {
        lemma_prefixes(body, lo);
        let cut = without_final(body, lo);
        lemma_prefixes(cut, lo);
        let up = trimmed(cut, lo);
        assert(up =~= p.subrange(0, up.len() as int));
    } else if lo == 1 && p[0] == DOT {
        assert(Seq::<u8>::empty() =~= p.subrange(0, 0));
    }
}

/// `without_final` cuts at the last separator, where one stands at or after `lo`.
pub proof fn lemma_without_final(p: Seq<u8>, lo: int)
    requires
        0 <= lo <= p.len(),
    ensures
        without_final(p, lo) == p.subrange(
            0,
            if last_separator(p) >= lo {
                last_separator(p)
            } else {
                lo
            },
        ),
    decreases p.len(),
{
    lemma_last_separator_bounds(p);
    if p.len() <= lo {
        assert(p =~= p.subrange(0, lo));
    } else if p.last() == SEPARATOR {
        assert(p.drop_last() =~= p.subrange(0, p.len() - 1));
    } else {
        let q = p.drop_last();
        lemma_without_final(q, lo);
        let n = if last_separator(p) >= lo {
            last_separator(p)
        } else {
            lo
        };
        lemma_last_separator_bounds(q);
        assert(q.subrange(0, n) =~= p.subrange(0, n));
    }
}

/// A canonical path starts at the root and, unless it is the root, ends in a component.
pub proof fn lemma_canonical_shape(p: Seq<u8>)
    requires
        is_canonical(p),
    ensures
        p.len() >= 1,
        p[0] == SEPARATOR,
        head_len(p) == 1,
        p.len() > 1 ==> p.last() != SEPARATOR && is_component(final_name(p)),
        p.len() > 1 ==> 0 <= last_separator(p) < p.len() - 1,
        trimmed(p, 1) == p,
    decreases p.len(),
{
    lemma_last_separator_bounds(p);
    let cut = last_separator(p);
    if p.len() > 1 {
        let name = final_name(p);
        assert(name.last() == p.last());
        if cut > 0 {
            lemma_canonical_shape(p.subrange(0, cut));
            assert(p.subrange(0, cut)[0] == p[0]);
        }
        if p.last() == DOT {
            if p[p.len() - 2] == SEPARATOR {
                assert(cut == p.len() - 2);
                assert(name.len() == 1 && name[0] == DOT);
            }
        }
    }
}

/// One level above a canonical path stands its directory part, which is canonical too;
/// nothing stands above the root.
pub proof fn lemma_canonical_parent(p: Seq<u8>)
    requires
        is_canonical(p),
    ensures
        p.len() == 1 ==> parent_of(p) is None,
        p.len() > 1 ==> parent_of(p) == Some(canonical_parent(p)),
        p.len() > 1 ==> is_canonical(canonical_parent(p)),
        p.len() > 1 ==> canonical_parent(p).len() < p.len(),
{
    lemma_canonical_shape(p);
    if p.len() > 1 {
        lemma_without_final(p, 1);
        let d = canonical_parent(p);
        assert(without_final(p, 1) == d);
        if last_separator(p) == 0 {
            lemma_last_separator_at(d, 0);
        } else {
            lemma_canonical_shape(d);
        }
    }
}

/// The entry `name` of a canonical directory path has a canonical path, whose last
/// component is `name` and whose parent is the directory.
pub proof fn lemma_child_canonical(dir: Seq<u8>, name: Seq<u8>)
    requires
        is_canonical(dir),
        is_component(name),
    ensures
        is_canonical(child_text(dir, name)),
        final_name(child_text(dir, name)) == name,
        parent_of(child_text(dir, name)) == Some(dir),
{
    lemma_canonical_shape(dir);
    let c = child_text(dir, name);
    let cut = if dir.len() == 1 {
        0
    } else {
        dir.len() as int
    };
    lemma_last_separator_at(c, cut);
    assert(final_name(c) =~= name);
    assert(canonical_parent(c) =~= dir);
    if dir.len() > 1 {
        assert(c.subrange(0, cut) =~= dir);
    }
    lemma_canonical_parent(c);
}

/// Length of what `trimmed` keeps of the first `end` bytes of `p`.
fn trim_end(p: &[u8], lo: usize, end: usize) -> (n: usize)
    requires
        lo <= end <= p.len(),
    ensures
        lo <= n <= end,
        trimmed(p@.subrange(0, end as int), lo as int) == p@.subrange(0, n as int),
{
    let mut n: usize = end;
    loop
        invariant
            lo <= n <= end <= p.len(),
            trimmed(p@.subrange(0, end as int), lo as int) == trimmed(
                p@.subrange(0, n as int),
                lo as int,
            ),
        decreases n,
    {
        let ghost cur = p@.subrange(0, n as int);
        if n == lo {
            return n;
        }
        let last: u8 = p[n - 1];
        assert(cur.last() == last);
        if last == SEPARATOR {
            assert(cur.drop_last() =~= p@.subrange(0, n - 1));
            n -= 1;
        } else if last == DOT && n - 1 == lo {
            assert(cur.drop_last() =~= p@.subrange(0, lo as int));
            return lo;
        } else if last == DOT && p[n - 2] == SEPARATOR {
            assert(cur[n - 2] == p@[n - 2]);
            assert(cur.subrange(0, n - 2) =~= p@.subrange(0, n - 2));
            n -= 2;
        } else {
            assert(n - 1 > lo ==> cur[n - 2] == p@[n - 2]);
            return n;
        }
    }
}

/// Length of what `without_final` keeps of the first `end` bytes of `p`.
fn final_cut(p: &[u8], lo: usize, end: usize) -> (n: usize)
    requires
        lo <= end <= p.len(),
    ensures
        lo <= n <= end,
        without_final(p@.subrange(0, end as int), lo as int) == p@.subrange(0, n as int),
{
    let mut n: usize = end;
    loop
        invariant
            lo <= n <= end <= p.len(),
            without_final(p@.subrange(0, end as int), lo as int) == without_final(
                p@.subrange(0, n as int),
                lo as int,
            ),
        decreases n,
    {
        let ghost cur = p@.subrange(0, n as int);
        if n == lo {
            return n;
        }
        assert(cur.last() == p@[n - 1]);
        assert(cur.drop_last() =~= p@.subrange(0, n - 1));
        n -= 1;
        if p[n] == SEPARATOR {
            return n;
        }
    }
}

/// Finds the path one level up: the length of the prefix of `p` that is its parent.
pub fn parent_len(p: &[u8]) -> (r: Option<usize>)
    ensures
        match r {
            Some(n) => n <= p.len() && parent_of(p@) == Some(p@.subrange(0, n as int)),
            None => parent_of(p@) is None,
        },
{
    let len: usize = p.len();
    let lo: usize = if len > 0 && (p[0] == SEPARATOR || (p[0] == DOT && (len == 1 || p[1]
        == SEPARATOR))) {
        1
    } else {
        0
    };
    assert(p@.subrange(0, len as int) =~= p@);
    let end: usize = trim_end(p, lo, len);
    if end > lo {
        let cut: usize = final_cut(p, lo, end);
        let n: usize = trim_end(p, lo, cut);
        Some(n)
    } else if lo == 1 && p[0] == DOT {
        assert(p@.subrange(0, 0) =~= Seq::<u8>::empty());
        Some(0)
    } else {
        None
    }
}

/// Copies the first `n` bytes of `p`.
pub(crate) fn prefix(p: &[u8], n: usize) -> (r: Vec<u8>)
    requires
        n <= p.len(),
    ensures
        r@ == p@.subrange(0, n as int),
{
    let mut r: Vec<u8> = Vec::new();
    let mut i: usize = 0;
    while i < n
        invariant
            i <= n <= p.len(),
            r@ == p@.subrange(0, i as int),
        decreases n - i,
    {
        r.push(p[i]);
        i += 1;
        assert(r@ =~= p@.subrange(0, i as int));
    }
    r
}

/// Tells whether two byte strings hold the same bytes.
pub fn same_bytes(a: &[u8], b: &[u8]) -> (same: bool)
    ensures
        same == (a@ == b@),
{
    if a.len() != b.len() {
        return false;
    }
    let mut i: usize = 0;
    while i < a.len()
        invariant
            i <= a.len() == b.len(),
            forall|k: int| 0 <= k < i ==> a@[k] == b@[k],
        decreases a.len() - i,
    {
        if a[i] != b[i] {
            return false;
        }
        i += 1;
    }
    assert(a@ =~= b@);
    true
}

/// Compares two byte strings in dictionary order: -1 where `a` comes before `b`, 0 where
/// the two are equal, 1 where `b` comes before `a`.
pub fn order_bytes(a: &[u8], b: &[u8]) -> (sign: i8)
    ensures
        sign == -1 || sign == 0 || sign == 1,
        sign == 0 <==> a@ == b@,
        sign == -1 <==> comes_before(a@, b@),
        sign == 1 <==> comes_before(b@, a@),
{
    let mut i: usize = 0;
    proof {
        assert(a@.subrange(0, a@.len() as int) =~= a@);
        assert(b@.subrange(0, b@.len() as int) =~= b@);
    }
    while i < a.len() && i < b.len()
        invariant
            i <= a.len(),
            i <= b.len(),
            (a@ == b@) == (a@.subrange(i as int, a@.len() as int) == b@.subrange(
                i as int,
                b@.len() as int,
            )),
            comes_before(a@, b@) == comes_before(
                a@.subrange(i as int, a@.len() as int),
                b@.subrange(i as int, b@.len() as int),
            ),
            comes_before(b@, a@) == comes_before(
                b@.subrange(i as int, b@.len() as int),
                a@.subrange(i as int, a@.len() as int),
            ),
            forall|k: int| 0 <= k < i ==> a@[k] == b@[k],
        decreases a.len() - i,
    {
        let ghost ra = a@.subrange(i as int, a@.len() as int);
        let ghost rb = b@.subrange(i as int, b@.len() as int);
        proof {
            assert(ra[0] == a@[i as int] && rb[0] == b@[i as int]);
            assert(ra.subrange(1, ra.len() as int) =~= a@.subrange(i + 1, a@.len() as int));
            assert(rb.subrange(1, rb.len() as int) =~= b@.subrange(i + 1, b@.len() as int));
            lemma_order_is_total(ra, rb);
        }
        if a[i] < b[i] {
            return -1;
        }
        if a[i] > b[i] {
            return 1;
        }
        proof {
            let ta = a@.subrange(i + 1, a@.len() as int);
            let tb = b@.subrange(i + 1, b@.len() as int);
            if ta == tb {
                assert(a@ =~= b@) by {
                    assert(a@.len() == b@.len()) by {
                        assert(ta.len() == tb.len());
                    }
                    assert forall|k: int| 0 <= k < a@.len() implies a@[k] == b@[k] by {
                        if k > i {
                            assert(a@[k] == ta[k - i - 1]);
                            assert(b@[k] == tb[k - i - 1]);
                        }
                    }
                }
            }
            if a@ == b@ {
                assert(ta =~= tb);
            }
        }
        i += 1;
    }
    proof {
        lemma_order_is_total(
            a@.subrange(i as int, a@.len() as int),
            b@.subrange(i as int, b@.len() as int),
        );
    }
    if i < b.len() {
        -1
    } else if i < a.len() {
        1
    } else {
        0
    }
}

/// Builds the text that names the entry `name` of the directory `dir`.
pub fn child(dir: &[u8], name: &[u8]) -> (r: Vec<u8>)
    ensures
        r@ == child_text(dir@, name@),
{
    let mut r: Vec<u8> = prefix(dir, dir.len());
    assert(r@ =~= dir@);
    if dir.len() > 0 && dir[dir.len() - 1] != SEPARATOR {
        r.push(SEPARATOR);
    }
    let ghost start = r@;
    let mut i: usize = 0;
    while i < name.len()
        invariant
            i <= name.len(),
            r@ == start + name@.subrange(0, i as int),
        decreases name.len() - i,
    {
        r.push(name[i]);
        i += 1;
        assert(r@ =~= start + name@.subrange(0, i as int));
    }
    assert(name@.subrange(0, i as int) =~= name@);
    r
}

/// Tells whether `p` is in canonical absolute form.
pub fn check_canonical(p: &[u8]) -> (ok: bool)
    ensures
        ok == is_canonical(p@),
{
    let mut end: usize = p.len();
    assert(p@.subrange(0, end as int) =~= p@);
    loop
        invariant
            end <= p.len(),
            is_canonical(p@) == is_canonical(p@.subrange(0, end as int)),
        decreases end,
    {
        let ghost head = p@.subrange(0, end as int);
        let mut i: usize = end;
        while i > 0 && p[i - 1] != SEPARATOR
            invariant
                i <= end <= p.len(),
                head == p@.subrange(0, end as int),
                is_canonical(p@) == is_canonical(head),
                forall|k: int| i <= k < end ==> p@[k] != SEPARATOR && p@[k] != NUL,
            decreases i,
        {
            if p[i - 1] == NUL {
                proof {
                    lemma_last_separator_bounds(head);
                    let cut = last_separator(head);
                    if 0 <= cut {
                        assert(p@[cut] == head[cut]);
                        assert(head[i - 1] == p@[i - 1]);
                        assert(cut < i - 1);
                        assert(final_name(head)[i - 1 - (cut + 1)] == head[i - 1]);
                        assert(!is_component(final_name(head)));
                    }
                }
                return false;
            }
            i -= 1;
        }
        if i == 0 {
            proof {
                lemma_last_separator_bounds(head);
                if last_separator(head) >= 0 {
                    assert(p@[last_separator(head)] == head[last_separator(head)]);
                }
            }
            return false;
        }
        let cut: usize = i - 1;
        proof {
            assert forall|k: int| cut < k < head.len() implies head[k] != SEPARATOR by {
                assert(head[k] == p@[k]);
            }
            lemma_last_separator_at(head, cut as int);
            assert forall|k: int| 0 <= k < final_name(head).len() implies final_name(head)[k]
                != SEPARATOR && final_name(head)[k] != NUL by {
                assert(final_name(head)[k] == p@[cut + 1 + k]);
            }
        }
        if end == 1 {
            return true;
        }
        let n: usize = end - i;
        if n == 0 {
            return false;
        }
        if n == 1 && p[i] == DOT {
            assert(final_name(head)[0] == p@[i as int]);
            return false;
        }
        if n == 2 && p[i] == DOT && p[i + 1] == DOT {
            assert(final_name(head)[0] == p@[i as int]);
            assert(final_name(head)[1] == p@[i + 1]);
            return false;
        }
        proof {
            if n == 1 {
                assert(final_name(head)[0] == p@[i as int]);
            }
            if n == 2 {
                assert(final_name(head)[0] == p@[i as int]);
                assert(final_name(head)[1] == p@[i + 1]);
            }
            assert(is_component(final_name(head)));
            assert(head.subrange(0, cut as int) =~= p@.subrange(0, cut as int));
        }
        if cut == 0 {
            return true;
        }
        if cut == 1 {
            return false;
        }
        end = cut;
    }
}

} // verus!
