//! A path as the list of its names, and the order of paths.

use vstd::prelude::*;
use crate::lexical::{
    canonical_parent,
    child_text,
    comes_before,
    final_name,
    is_canonical,
    is_component,
    last_separator,
    lemma_canonical_parent,
    lemma_canonical_shape,
    lemma_last_separator_at,
    lemma_last_separator_bounds,
    lemma_order_is_total,
    order_bytes,
    parent_of,
    SEPARATOR,
};

verus! {

/// The byte strings that a list holds.
pub open spec fn texts(names: Seq<Vec<u8>>) -> Seq<Seq<u8>> {
    Seq::new(names.len(), |i: int| names[i]@)
}

/// The names of a path: the pieces of its text between the separators, in order, the
/// empty ones too. The root `/` has two empty names; `/a/b` has an empty name, `a` and `b`.
pub open spec fn segments(text: Seq<u8>) -> Seq<Seq<u8>>
    decreases text.len(),
{
    let cut = last_separator(text);
    if cut < 0 || cut >= text.len() {
        seq![text]
    } else {
        segments(text.subrange(0, cut)).push(text.subrange(cut + 1, text.len() as int))
    }
}

/// The text that has these names: the names with one separator between each two.
pub open spec fn joined(names: Seq<Seq<u8>>) -> Seq<u8>
    decreases names.len(),
{
    if names.len() == 0 {
        Seq::empty()
    } else if names.len() == 1 {
        names[0]
    } else {
        joined(names.drop_last()).push(SEPARATOR) + names.last()
    }
}

/// Dictionary order on lists of names: the first name that differs decides, by the
/// dictionary order of bytes, and a list comes before every longer list that starts
/// with it.
pub open spec fn names_before(a: Seq<Seq<u8>>, b: Seq<Seq<u8>>) -> bool
    decreases a.len(),
{
    if b.len() == 0 {
        false
    } else if a.len() == 0 {
        true
    } else {
        comes_before(a[0], b[0]) || (a[0] == b[0] && names_before(
            a.subrange(1, a.len() as int),
            b.subrange(1, b.len() as int),
        ))
    }
}

/// The order of paths: by their names, name after name. A directory comes before all
/// that lies in it, and `/a/b` comes before `/a!` although `!` is the smaller byte.
pub open spec fn path_before(a: Seq<u8>, b: Seq<u8>) -> bool {
    names_before(segments(a), segments(b))
}

/// Two lists that start alike are equal exactly where the rest is.
pub proof fn lemma_same_head<T>(a: Seq<T>, b: Seq<T>)
    requires
        a.len() > 0,
        b.len() > 0,
        a[0] == b[0],
    ensures
        (a == b) == (a.subrange(1, a.len() as int) == b.subrange(1, b.len() as int)),
{
    let ta = a.subrange(1, a.len() as int);
    let tb = b.subrange(1, b.len() as int);
    if ta == tb {
        assert(a.len() == ta.len() + 1 && b.len() == tb.len() + 1);
        assert forall|k: int| 0 <= k < a.len() implies a[k] == b[k] by {
            if k > 0 {
                assert(a[k] == ta[k - 1]);
                assert(b[k] == tb[k - 1]);
            }
        }
        assert(a =~= b);
    }
}

/// A text has at least one name, and is the text that has its names: no two texts have
/// the same names.
pub proof fn lemma_segments_joined(text: Seq<u8>)
    ensures
        segments(text).len() >= 1,
        joined(segments(text)) == text,
    decreases text.len(),
{
    lemma_last_separator_bounds(text);
    let cut = last_separator(text);
    if cut >= 0 {
        let dir = text.subrange(0, cut);
        let name = text.subrange(cut + 1, text.len() as int);
        lemma_segments_joined(dir);
        let all = segments(dir).push(name);
        assert(all.drop_last() =~= segments(dir));
        assert(dir.push(SEPARATOR) + name =~= text);
    }
}

/// Of two lists of names exactly one thing holds: they are equal, the first comes before
/// the second, or the second before the first.
pub proof fn lemma_names_order_is_total(a: Seq<Seq<u8>>, b: Seq<Seq<u8>>)
    ensures
        (a == b) || names_before(a, b) || names_before(b, a),
        !(a == b && names_before(a, b)),
        !(a == b && names_before(b, a)),
        !(names_before(a, b) && names_before(b, a)),
    decreases a.len(),
{
    if a.len() > 0 && b.len() > 0 {
        lemma_order_is_total(a[0], b[0]);
        lemma_names_order_is_total(
            a.subrange(1, a.len() as int),
            b.subrange(1, b.len() as int),
        );
        if a[0] == b[0] {
            lemma_same_head(a, b);
        }
    } else if a.len() == 0 && b.len() == 0 {
        assert(a =~= b);
    }
}

/// Of two paths exactly one thing holds: their texts are equal, the first comes before
/// the second, or the second before the first.
pub proof fn lemma_path_order_is_total(a: Seq<u8>, b: Seq<u8>)
    ensures
        (a == b) || path_before(a, b) || path_before(b, a),
        !(a == b && path_before(a, b)),
        !(a == b && path_before(b, a)),
        !(path_before(a, b) && path_before(b, a)),
{
    lemma_names_order_is_total(segments(a), segments(b));
    lemma_segments_joined(a);
    lemma_segments_joined(b);
}

/// The components of a canonical path: its names after the root. The root has none.
pub open spec fn components(path: Seq<u8>) -> Seq<Seq<u8>> {
    if path.len() <= 1 {
        Seq::empty()
    } else {
        segments(path).subrange(1, segments(path).len() as int)
    }
}

/// Where climbing `steps` times from `path` to the parent leads, if it leads anywhere.
pub open spec fn climbed(path: Seq<u8>, steps: nat) -> Option<Seq<u8>>
    decreases steps,
{
    if steps == 0 {
        Some(path)
    } else {
        match parent_of(path) {
            Some(up) => climbed(up, (steps - 1) as nat),
            None => None,
        }
    }
}

/// A text that starts with a separator has an empty first name and one name more at
/// least.
pub proof fn lemma_rooted_names(text: Seq<u8>)
    requires
        text.len() >= 1,
        text[0] == SEPARATOR,
    ensures
        segments(text).len() >= 2,
        segments(text)[0] == Seq::<u8>::empty(),
    decreases text.len(),
{
    lemma_last_separator_bounds(text);
    let cut = last_separator(text);
    if cut == 0 {
        assert(text.subrange(0, 0) =~= Seq::<u8>::empty());
        assert(segments(Seq::<u8>::empty()) =~= seq![Seq::<u8>::empty()]);
    } else {
        let dir = text.subrange(0, cut);
        assert(dir[0] == text[0]);
        lemma_rooted_names(dir);
    }
}

/// A canonical path other than the root is its parent joined with its last name.
pub proof fn lemma_canonical_is_child(path: Seq<u8>)
    requires
        is_canonical(path),
        path.len() > 1,
    ensures
        is_canonical(canonical_parent(path)),
        is_component(final_name(path)),
        path == child_text(canonical_parent(path), final_name(path)),
{
    lemma_canonical_parent(path);
    lemma_canonical_shape(path);
    lemma_last_separator_bounds(path);
    let dir = canonical_parent(path);
    let cut = last_separator(path);
    if cut > 0 {
        lemma_canonical_shape(dir);
        assert(dir.len() == cut && dir.last() != SEPARATOR);
        assert(dir.push(SEPARATOR) + final_name(path) =~= path);
    } else {
        assert(dir.len() == 1 && dir.last() == path[0]);
        assert(dir + final_name(path) =~= path);
    }
}

/// The components of a canonical path are those of its parent and its last name: the
/// parent has the path's components without the last.
pub proof fn lemma_parent_components(path: Seq<u8>)
    requires
        is_canonical(path),
        path.len() > 1,
    ensures
        components(path) == components(canonical_parent(path)).push(final_name(path)),
        components(canonical_parent(path)) == components(path).drop_last(),
        components(path).last() == final_name(path),
{
    lemma_canonical_shape(path);
    lemma_canonical_parent(path);
    let cut = last_separator(path);
    let dir = canonical_parent(path);
    let name = final_name(path);
    if cut == 0 {
        assert(path.subrange(0, 0) =~= Seq::<u8>::empty());
        assert(segments(Seq::<u8>::empty()) =~= seq![Seq::<u8>::empty()]);
        assert(components(path) =~= Seq::<Seq<u8>>::empty().push(name));
    } else {
        lemma_canonical_shape(dir);
        lemma_rooted_names(dir);
        assert(components(path) =~= components(dir).push(name));
    }
    assert(components(dir).push(name).drop_last() =~= components(dir));
}

/// Every component of a canonical path is a name that may stand in one.
pub proof fn lemma_components_are_names(path: Seq<u8>)
    requires
        is_canonical(path),
    ensures
        forall|i: int| 0 <= i < components(path).len() ==> is_component(#[trigger] components(path)[i]),
    decreases path.len(),
{
    if path.len() > 1 {
        lemma_canonical_is_child(path);
        lemma_parent_components(path);
        lemma_canonical_parent(path);
        lemma_components_are_names(canonical_parent(path));
    }
}

/// Climbing from a canonical path reaches the root after as many steps as the path has
/// components, and ends there.
pub proof fn lemma_climbing_ends(path: Seq<u8>)
    requires
        is_canonical(path),
    ensures
        climbed(path, components(path).len()) == Some(seq![SEPARATOR]),
        climbed(path, components(path).len() + 1) is None,
    decreases path.len(),
{
    lemma_canonical_shape(path);
    lemma_canonical_parent(path);
    if path.len() == 1 {
        assert(path =~= seq![SEPARATOR]);
        assert(climbed(path, 1) is None) by {
            reveal_with_fuel(climbed, 2);
        }
    } else {
        let dir = canonical_parent(path);
        lemma_parent_components(path);
        lemma_climbing_ends(dir);
        let n = components(path).len();
        assert(components(dir).len() == n - 1);
        assert(climbed(path, n) == climbed(dir, (n - 1) as nat));
        assert(climbed(path, n + 1) == climbed(dir, n));
    }
}

/// Canonical paths are ordered by their components: the order of paths is the
/// dictionary order of the lists of components.
pub proof fn lemma_order_by_components(a: Seq<u8>, b: Seq<u8>)
    requires
        is_canonical(a),
        is_canonical(b),
    ensures
        path_before(a, b) == names_before(components(a), components(b)),
{
    lemma_canonical_shape(a);
    lemma_canonical_shape(b);
    lemma_rooted_names(a);
    lemma_rooted_names(b);
    lemma_components_are_names(a);
    lemma_components_are_names(b);
    let sa = segments(a);
    let sb = segments(b);
    let ta = sa.subrange(1, sa.len() as int);
    let tb = sb.subrange(1, sb.len() as int);
    let none = Seq::<u8>::empty();
    lemma_order_is_total(none, none);
    assert(names_before(sa, sb) == names_before(ta, tb));
    if a.len() == 1 {
        assert(a =~= seq![SEPARATOR]);
        lemma_last_separator_at(a, 0);
        assert(a.subrange(1, 1) =~= none);
        assert(a.subrange(0, 0) =~= none);
        assert(segments(none) =~= seq![none]);
        assert(ta =~= seq![none]);
    }
    if b.len() == 1 {
        assert(b =~= seq![SEPARATOR]);
        lemma_last_separator_at(b, 0);
        assert(b.subrange(1, 1) =~= none);
        assert(b.subrange(0, 0) =~= none);
        assert(segments(none) =~= seq![none]);
        assert(tb =~= seq![none]);
    }
    if a.len() > 1 {
        assert(is_component(components(a)[0]));
    }
    if b.len() > 1 {
        assert(is_component(components(b)[0]));
    }
    if a.len() == 1 && b.len() == 1 {
        assert(ta =~= tb);
        lemma_names_order_is_total(ta, tb);
    } else if a.len() == 1 {
        assert(comes_before(ta[0], tb[0]));
    } else if b.len() == 1 {
        assert(!comes_before(ta[0], tb[0]));
        assert(ta[0] != tb[0]);
    }
}

/// A canonical directory comes before every path that lies in it.
pub proof fn lemma_directory_comes_first(dir: Seq<u8>, name: Seq<u8>)
    requires
        is_canonical(dir),
        is_component(name),
    ensures
        path_before(dir, child_text(dir, name)),
{
    let inside = child_text(dir, name);
    crate::lexical::lemma_child_canonical(dir, name);
    lemma_order_by_components(dir, inside);
    lemma_parent_components(inside);
    lemma_canonical_parent(inside);
    lemma_prefix_comes_first(components(dir), name);
}

/// A list of names comes before itself with one name more.
pub proof fn lemma_prefix_comes_first(names: Seq<Seq<u8>>, name: Seq<u8>)
    ensures
        names_before(names, names.push(name)),
    decreases names.len(),
{
    let longer = names.push(name);
    if names.len() > 0 {
        lemma_prefix_comes_first(names.subrange(1, names.len() as int), name);
        assert(longer.subrange(1, longer.len() as int) =~= names.subrange(
            1,
            names.len() as int,
        ).push(name));
        assert(longer[0] == names[0]);
    }
}

/// Cuts a text into its names.
pub fn split(text: &[u8]) -> (names: Vec<Vec<u8>>)
    ensures
        texts(names@) == segments(text@),
{
    let mut names: Vec<Vec<u8>> = Vec::new();
    let mut current: Vec<u8> = Vec::new();
    let mut start: usize = 0;
    let mut i: usize = 0;
    while i < text.len()
        invariant
            start <= i <= text.len(),
            current@ == text@.subrange(start as int, i as int),
            forall|k: int| start <= k < i ==> text@[k] != SEPARATOR,
            start == 0 ==> names@.len() == 0,
            start > 0 ==> text@[start - 1] == SEPARATOR && texts(names@) == segments(
                text@.subrange(0, start - 1),
            ),
        decreases text.len() - i,
    {
        if text[i] == SEPARATOR {
            proof {
                let head = text@.subrange(0, i as int);
                lemma_cut(head, start as int);
                if start > 0 {
                    assert(head.subrange(0, start - 1) =~= text@.subrange(0, start - 1));
                }
                assert(head.subrange(start as int, i as int) =~= current@);
                assert(texts(names@.push(current)) =~= texts(names@).push(current@));
                if start == 0 {
                    assert(current@ =~= head);
                    assert(texts(names@).push(current@) =~= seq![head]);
                }
                assert(text@.subrange(0, i + 1 - 1) == head);
                assert(text@.subrange(i + 1, i + 1) =~= Seq::<u8>::empty());
            }
            names.push(current);
            current = Vec::new();
            start = i + 1;
        } else {
            current.push(text[i]);
            assert(current@ =~= text@.subrange(start as int, i + 1));
        }
        i += 1;
    }
    proof {
        lemma_cut(text@, start as int);
        assert(text@.subrange(start as int, text@.len() as int) =~= current@);
        assert(texts(names@.push(current)) =~= texts(names@).push(current@));
        if start == 0 {
            assert(current@ =~= text@);
            assert(texts(names@).push(current@) =~= seq![text@]);
        }
    }
    names.push(current);
    names
}

/// The names of a text whose last name starts at `start`: that name alone where it
/// starts the text, and else the names of what stands before its separator, and it.
pub proof fn lemma_cut(text: Seq<u8>, start: int)
    requires
        0 <= start <= text.len(),
        start > 0 ==> text[start - 1] == SEPARATOR,
        forall|k: int| start <= k < text.len() ==> text[k] != SEPARATOR,
    ensures
        start == 0 ==> segments(text) == seq![text],
        start > 0 ==> segments(text) == segments(text.subrange(0, start - 1)).push(
            text.subrange(start, text.len() as int),
        ),
{
    lemma_last_separator_bounds(text);
    if start > 0 {
        lemma_last_separator_at(text, start - 1);
    }
}

/// Compares two lists of names in dictionary order: -1 where `a` comes before `b`, 0
/// where the two are equal, 1 where `b` comes before `a`.
pub fn order_names(a: &[Vec<u8>], b: &[Vec<u8>]) -> (sign: i8)
    ensures
        sign == -1 || sign == 0 || sign == 1,
        sign == 0 <==> texts(a@) == texts(b@),
        sign == -1 <==> names_before(texts(a@), texts(b@)),
        sign == 1 <==> names_before(texts(b@), texts(a@)),
{
    let ghost na = texts(a@);
    let ghost nb = texts(b@);
    let mut i: usize = 0;
    proof {
        assert(na.subrange(0, na.len() as int) =~= na);
        assert(nb.subrange(0, nb.len() as int) =~= nb);
    }
    while i < a.len() && i < b.len()
        invariant
            i <= a.len() == na.len(),
            i <= b.len() == nb.len(),
            na == texts(a@),
            nb == texts(b@),
            (na == nb) == (na.subrange(i as int, na.len() as int) == nb.subrange(
                i as int,
                nb.len() as int,
            )),
            names_before(na, nb) == names_before(
                na.subrange(i as int, na.len() as int),
                nb.subrange(i as int, nb.len() as int),
            ),
            names_before(nb, na) == names_before(
                nb.subrange(i as int, nb.len() as int),
                na.subrange(i as int, na.len() as int),
            ),
        decreases a.len() - i,
    {
        let ghost ra = na.subrange(i as int, na.len() as int);
        let ghost rb = nb.subrange(i as int, nb.len() as int);
        let sign: i8 = order_bytes(a[i].as_slice(), b[i].as_slice());
        proof {
            assert(ra[0] == a@[i as int]@ && rb[0] == b@[i as int]@);
            assert(ra.subrange(1, ra.len() as int) =~= na.subrange(i + 1, na.len() as int));
            assert(rb.subrange(1, rb.len() as int) =~= nb.subrange(i + 1, nb.len() as int));
            lemma_order_is_total(ra[0], rb[0]);
            lemma_names_order_is_total(ra, rb);
            if ra[0] == rb[0] {
                lemma_same_head(ra, rb);
            }
        }
        if sign != 0 {
            return sign;
        }
        i += 1;
    }
    proof {
        lemma_names_order_is_total(
            na.subrange(i as int, na.len() as int),
            nb.subrange(i as int, nb.len() as int),
        );
    }
    if i < b.len() {
        -1
    } else if i < a.len() {
        1
    } else {
        0
    }
}

} // verus!
