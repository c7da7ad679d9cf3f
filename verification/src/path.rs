//! Filesystem paths, as bytes, with Unix rules.
//!
//! A path is looked at through its [`parts`]: a leading `/` (or `.`, for a
//! path that begins with one) followed by the names between the separators,
//! where repeated separators and inner `.` segments do not count. Two paths
//! are the same when their parts are.

use vstd::prelude::*;
use vstd::std_specs::cmp::PartialEqSpecImpl;
use vstd::utf8::{decode_utf8, encode_scalar, encode_utf8, valid_utf8};

use crate::text;

verus! {

/// A path, absolute or relative.
#[derive(Debug, Eq)]
pub struct FsPath {
    bytes: Vec<u8>,
}

impl View for FsPath {
    type V = Seq<u8>;

    closed spec fn view(&self) -> Seq<u8> {
        self.bytes@
    }
}

/// The separator.
pub const SEPARATOR: u8 = 47;

/// The byte of a full stop.
pub const DOT: u8 = 46;

/// The segments between the separators of `path`, empty ones included.
pub open spec fn split(path: Seq<u8>) -> Seq<Seq<u8>>
    decreases path.len(),
{
    if path.len() == 0 {
        seq![Seq::<u8>::empty()]
    } else {
        let before = split(path.drop_last());
        if path.last() == SEPARATOR {
            before.push(Seq::<u8>::empty())
        } else {
            before.update(before.len() - 1, before.last().push(path.last()))
        }
    }
}

/// The segments that name something: neither empty nor `.`.
pub open spec fn named(segments: Seq<Seq<u8>>) -> Seq<Seq<u8>>
    decreases segments.len(),
{
    if segments.len() == 0 {
        Seq::empty()
    } else if segments.last().len() == 0 || segments.last() == seq![DOT] {
        named(segments.drop_last())
    } else {
        named(segments.drop_last()).push(segments.last())
    }
}

/// Whether `path` begins at the root.
pub open spec fn absolute(path: Seq<u8>) -> bool {
    path.len() > 0 && path[0] == SEPARATOR
}

/// What stands before the names: `/`, a leading `.`, or nothing.
pub open spec fn lead(path: Seq<u8>) -> Seq<Seq<u8>> {
    if absolute(path) {
        seq![seq![SEPARATOR]]
    } else if split(path)[0] == seq![DOT] {
        seq![seq![DOT]]
    } else {
        Seq::empty()
    }
}

/// The parts of `path`.
pub open spec fn parts(path: Seq<u8>) -> Seq<Seq<u8>> {
    lead(path) + named(split(path))
}

/// Whether two paths have the same parts.
pub open spec fn same_path(a: Seq<u8>, b: Seq<u8>) -> bool {
    parts(a) == parts(b)
}

/// `tail` resolved against `base`.
pub open spec fn joined(base: Seq<u8>, tail: Seq<u8>) -> Seq<u8> {
    if absolute(tail) {
        tail
    } else if base.len() == 0 || base.last() == SEPARATOR {
        base + tail
    } else {
        base.push(SEPARATOR) + tail
    }
}

/// `name` below `base`.
pub open spec fn child(base: Seq<u8>, name: Seq<char>) -> Seq<u8> {
    joined(base, encode_utf8(name))
}

/// The names in a text that is a path.
pub open spec fn names_in(text: Seq<char>) -> Seq<Seq<u8>> {
    named(split(encode_utf8(text)))
}

/// Whether a text is a path that begins somewhere, not at the root.
pub open spec fn relative(text: Seq<char>) -> bool {
    !absolute(encode_utf8(text))
}

/// Whether the first `k` bytes of `path` have all its parts but the last.
pub open spec fn upper(path: Seq<u8>, k: int) -> bool {
    0 <= k <= path.len() && parts(path.take(k)) == parts(path).drop_last()
}

/// Whether `path` has a path above it: it is neither empty nor the root.
pub open spec fn has_parent(path: Seq<u8>) -> bool {
    parts(path).len() > 0 && parts(path) != seq![seq![SEPARATOR]]
}

/// `k` is the length of the shortest prefix with all parts but the last.
pub open spec fn parent_length(path: Seq<u8>, k: int) -> bool {
    upper(path, k) && forall|j: int| 0 <= j < k ==> !#[trigger] upper(path, j)
}

/// The path above `path`.
pub open spec fn parent_of(path: Seq<u8>) -> Option<Seq<u8>> {
    if has_parent(path) {
        Some(path.take(choose|k: int| #[trigger] parent_length(path, k)))
    } else {
        None
    }
}

/// A target stays below the directory it is resolved against: it is relative
/// and never steps up.
pub open spec fn within_root(target: Seq<u8>) -> bool {
    !absolute(target) && !parts(target).contains(seq![DOT, DOT])
}

// ---------------------------------------------------------------------------
// Facts
// ---------------------------------------------------------------------------

/// The empty path has no parts.
pub proof fn lemma_empty_path()
    ensures
        split(Seq::<u8>::empty()) == seq![Seq::<u8>::empty()],
        named(split(Seq::<u8>::empty())) == Seq::<Seq<u8>>::empty(),
        parts(Seq::<u8>::empty()) == Seq::<Seq<u8>>::empty(),
{
    reveal_with_fuel(named, 2);
    let none = split(Seq::<u8>::empty());
    assert(none.drop_last() =~= Seq::<Seq<u8>>::empty());
    assert(none[0] != seq![DOT]) by {
        assert(none[0].len() == 0);
    }
    assert(parts(Seq::<u8>::empty()) =~= Seq::<Seq<u8>>::empty());
}

/// A path always has at least one segment.
pub proof fn lemma_split_some(path: Seq<u8>)
    ensures
        split(path).len() > 0,
    decreases path.len(),
{
    if path.len() > 0 {
        lemma_split_some(path.drop_last());
    }
}

/// A separator between two paths puts the segments of both in a row.
pub proof fn lemma_split_glued(a: Seq<u8>, b: Seq<u8>)
    ensures
        split(a.push(SEPARATOR) + b) == split(a) + split(b),
    decreases b.len(),
{
    let whole = a.push(SEPARATOR) + b;
    lemma_split_some(a);
    if b.len() == 0 {
        assert(whole =~= a.push(SEPARATOR));
        assert(whole.drop_last() =~= a);
        assert(split(whole) =~= split(a) + split(b));
    } else {
        let c = b.drop_last();
        assert(whole.drop_last() =~= a.push(SEPARATOR) + c);
        lemma_split_glued(a, c);
        lemma_split_some(c);
        assert(split(whole) =~= split(a) + split(b));
    }
}

/// [`named`] looks at each segment by itself.
pub proof fn lemma_named_concat(a: Seq<Seq<u8>>, b: Seq<Seq<u8>>)
    ensures
        named(a + b) == named(a) + named(b),
    decreases b.len(),
{
    if b.len() == 0 {
        assert(a + b =~= a);
    } else {
        assert((a + b).drop_last() =~= a + b.drop_last());
        lemma_named_concat(a, b.drop_last());
        assert(named(a + b) =~= named(a) + named(b));
    }
}

/// What a relative path adds to the directory it is resolved against: its
/// names, below all the parts of the directory.
pub proof fn lemma_joined_parts(base: Seq<u8>, tail: Seq<u8>)
    requires
        !absolute(tail),
        base.len() > 0,
    ensures
        parts(joined(base, tail)) == parts(base) + named(split(tail)),
{
    let whole = joined(base, tail);
    let stem = if base.last() == SEPARATOR {
        base.drop_last()
    } else {
        base
    };
    assert(whole =~= stem.push(SEPARATOR) + tail);
    lemma_split_glued(stem, tail);
    lemma_named_concat(split(stem), split(tail));
    lemma_split_some(stem);
    if base.last() == SEPARATOR {
        let none = Seq::<u8>::empty();
        assert(base =~= stem.push(SEPARATOR) + none);
        lemma_split_glued(stem, none);
        lemma_named_concat(split(stem), split(none));
        lemma_empty_path();
        assert(named(split(base)) =~= named(split(stem)));
        assert(split(base)[0] == split(stem)[0]);
    }
    assert(whole[0] == base[0]);
    assert(lead(whole) == lead(base));
    assert(parts(whole) =~= parts(base) + named(split(tail)));
}

/// **A target that is accepted stays below the root.** Whatever an accepted
/// target names, the path it resolves to runs through all the parts of the
/// root and never steps up from there.
pub proof fn accepted_targets_stay_below_the_root(root: Seq<u8>, target: Seq<u8>)
    requires
        root.len() > 0,
        within_root(target),
    ensures
        parts(joined(root, target)).take(parts(root).len() as int) == parts(root),
        !parts(joined(root, target)).skip(parts(root).len() as int).contains(seq![DOT, DOT]),
{
    lemma_joined_parts(root, target);
    let rest = named(split(target));
    assert(parts(joined(root, target)).take(parts(root).len() as int) =~= parts(root));
    assert(parts(joined(root, target)).skip(parts(root).len() as int) =~= rest);
    if rest.contains(seq![DOT, DOT]) {
        let i = choose|i: int| 0 <= i < rest.len() && rest[i] == seq![DOT, DOT];
        assert(parts(target)[lead(target).len() + i] == seq![DOT, DOT]);
    }
}

/// An ASCII character at the front of a text is the first byte of its encoding.
proof fn lemma_first_byte(text: Seq<char>)
    requires
        text.len() > 0,
        (text[0] as u32) < 128,
    ensures
        encode_utf8(text).len() > 0,
        encode_utf8(text)[0] == text[0] as u32,
{
    let n = text[0] as u32;
    assert(n & 0x7F == n) by (bit_vector)
        requires
            n < 128,
    ;
    assert(encode_utf8(text)[0] == encode_scalar(n)[0]);
}

/// Where the name of a child begins in its path.
spec fn name_from(base: Seq<u8>) -> int {
    if base.len() == 0 || base.last() == SEPARATOR {
        base.len() as int
    } else {
        base.len() + 1int
    }
}

proof fn lemma_child_starts(base: Seq<u8>, name: Seq<char>)
    requires
        name.len() > 0,
        (name[0] as u32) < 128,
        name[0] as u32 != SEPARATOR,
    ensures
        name_from(base) < child(base, name).len(),
        child(base, name)[name_from(base)] == name[0] as u32,
{
    lemma_first_byte(name);
}

/// Names that begin with different ASCII characters name different children.
pub proof fn lemma_children_differ(base: Seq<u8>, a: Seq<char>, b: Seq<char>)
    requires
        a.len() > 0 && b.len() > 0,
        (a[0] as u32) < 128 && (b[0] as u32) < 128,
        a[0] as u32 != SEPARATOR && b[0] as u32 != SEPARATOR,
        a[0] as u32 != b[0] as u32,
    ensures
        child(base, a) != child(base, b),
{
    lemma_child_starts(base, a);
    lemma_child_starts(base, b);
}

/// Neither is anything below the one the other.
pub proof fn lemma_below_differs(base: Seq<u8>, a: Seq<char>, b: Seq<char>, below: Seq<char>)
    requires
        a.len() > 0 && b.len() > 0,
        (a[0] as u32) < 128 && (b[0] as u32) < 128,
        a[0] as u32 != SEPARATOR && b[0] as u32 != SEPARATOR,
        a[0] as u32 != b[0] as u32,
        below.len() > 0,
        (below[0] as u32) < 128,
        below[0] as u32 != SEPARATOR,
    ensures
        child(base, a) != child(child(base, b), below),
{
    lemma_first_byte(below);
    lemma_child_starts(base, a);
    lemma_child_starts(base, b);
    assert(child(child(base, b), below)[name_from(base)] == child(base, b)[name_from(base)]);
}

/// One more byte leaves the parts as they are, adds one, or changes the last.
proof fn lemma_parts_step(path: Seq<u8>)
    requires
        path.len() > 0,
    ensures
        ({
            let before = parts(path.drop_last());
            let after = parts(path);
            ||| after == before
            ||| after.len() == before.len() + 1 && after.drop_last() == before
            ||| after.len() == before.len() && before.len() > 0 && after.drop_last()
                == before.drop_last()
        }),
{
    let less = path.drop_last();
    let a = split(less);
    let b = split(path);
    lemma_split_some(less);
    if path.last() == SEPARATOR {
        assert(b.drop_last() =~= a);
        assert(named(b) == named(a));
        if less.len() == 0 {
            assert(less =~= Seq::<u8>::empty());
            lemma_empty_path();
            assert(parts(path) =~= seq![seq![SEPARATOR]]);
            assert(parts(path).drop_last() =~= parts(less));
        } else {
            assert(less[0] == path[0]);
            assert(b[0] == a[0]);
            assert(parts(path) == parts(less));
        }
    } else {
        assert(b.drop_last() =~= a.drop_last());
        let kept = named(a.drop_last());
        assert(named(b) == if b.last() == seq![DOT] {
            kept
        } else {
            kept.push(b.last())
        });
        assert(named(a) == if a.last().len() == 0 || a.last() == seq![DOT] {
            kept
        } else {
            kept.push(a.last())
        });
        assert(less.len() > 0 ==> less[0] == path[0]);
        if a.len() == 1 {
            assert(kept =~= Seq::<Seq<u8>>::empty());
            lemma_one_segment(less);
            assert(a =~= seq![less]);
            assert(less.push(path.last()) =~= path);
            assert(b =~= seq![path]);
            assert(!absolute(less)) by {
                if absolute(less) {
                    assert(less[0] == SEPARATOR);
                }
            }
            if less.len() == 0 {
                assert(parts(less) =~= Seq::<Seq<u8>>::empty());
                assert(parts(path) =~= seq![path]);
                assert(parts(path).drop_last() =~= parts(less));
            } else {
                assert(parts(less) =~= seq![less]);
                assert(path != seq![DOT]);
                assert(parts(path) =~= seq![path]);
                assert(parts(path).drop_last() =~= parts(less).drop_last());
            }
        } else {
            assert(b[0] == a[0]);
            lemma_many_segments(less);
            assert(lead(path) == lead(less));
            let top = lead(path);
            assert(parts(path) =~= top + named(b));
            assert(parts(less) =~= top + named(a));
            assert((top + kept.push(b.last())).drop_last() =~= top + kept);
            assert((top + kept.push(a.last())).drop_last() =~= top + kept);
            if a.last().len() == 0 {
            } else {
                assert(b.last().len() >= 2);
                assert(b.last() != seq![DOT]);
                if a.last() == seq![DOT] {
                    assert(parts(path).drop_last() =~= parts(less));
                } else {
                    assert(parts(path).drop_last() =~= parts(less).drop_last());
                }
            }
        }
    }
}

proof fn lemma_one_segment(path: Seq<u8>)
    requires
        split(path).len() == 1,
    ensures
        split(path)[0] == path,
        forall|i: int| 0 <= i < path.len() ==> #[trigger] path[i] != SEPARATOR,
    decreases path.len(),
{
    if path.len() > 0 {
        lemma_split_some(path.drop_last());
        lemma_one_segment(path.drop_last());
        assert(split(path)[0] =~= path);
        assert forall|i: int| 0 <= i < path.len() implies #[trigger] path[i] != SEPARATOR by {
            if i < path.len() - 1 {
                assert(path[i] == path.drop_last()[i]);
            }
        }
    }
}

proof fn lemma_many_segments(path: Seq<u8>)
    requires
        split(path).len() > 1,
    ensures
        path.len() > 0,
{
}

/// Some prefix has all parts but the last.
proof fn lemma_upper_exists(path: Seq<u8>)
    requires
        parts(path).len() > 0,
    ensures
        exists|k: int| #[trigger] upper(path, k),
    decreases path.len(),
{
    if path.len() == 0 {
        assert(path =~= Seq::<u8>::empty());
        lemma_empty_path();
    } else {
        lemma_parts_step(path);
        let less = path.drop_last();
        assert(path.take(path.len() - 1) =~= less);
        let before = parts(less);
        let after = parts(path);
        if after == before || (after.len() == before.len() && before.len() > 0 && after.drop_last()
            == before.drop_last()) {
            lemma_upper_exists(less);
            let k = choose|k: int| #[trigger] upper(less, k);
            assert(path.take(k) =~= less.take(k));
            assert(upper(path, k));
        } else {
            assert(upper(path, path.len() - 1));
        }
    }
}

/// The shortest such prefix is a proper one, so going up always ends.
pub proof fn lemma_parent_shorter(path: Seq<u8>, k: int)
    requires
        parts(path).len() > 0,
        upper(path, k),
    ensures
        k < path.len(),
{
    if k == path.len() {
        assert(path.take(k) =~= path);
    }
}

proof fn lemma_parent_chosen(path: Seq<u8>, k: int)
    requires
        has_parent(path),
        parent_length(path, k),
    ensures
        parent_of(path) == Some(path.take(k)),
{
    let c = choose|c: int| #[trigger] parent_length(path, c);
    assert(parent_length(path, c));
    if c < k {
        assert(upper(path, c));
    } else if k < c {
        assert(upper(path, k));
    }
}

/// The parent of a path is shorter than it.
pub proof fn lemma_parent_is_shorter(path: Seq<u8>)
    requires
        has_parent(path),
    ensures
        parent_of(path) is Some,
        parent_of(path)->0.len() < path.len(),
        parts(parent_of(path)->0) == parts(path).drop_last(),
{
    lemma_upper_exists(path);
    let bound = choose|k: int| #[trigger] upper(path, k);
    lemma_shortest(path, 0, bound);
    let k = choose|k: int| #[trigger] parent_length(path, k);
    lemma_parent_shorter(path, k);
    lemma_parent_chosen(path, k);
}

proof fn lemma_shortest(path: Seq<u8>, from: int, bound: int)
    requires
        0 <= from <= bound,
        upper(path, bound),
        forall|j: int| 0 <= j < from ==> !#[trigger] upper(path, j),
    ensures
        exists|k: int| #[trigger] parent_length(path, k),
    decreases bound - from,
{
    if upper(path, from) {
        assert(parent_length(path, from));
    } else {
        lemma_shortest(path, from + 1, bound);
    }
}

// ---------------------------------------------------------------------------
// Laws
// ---------------------------------------------------------------------------

/// Whether a segment of `path` stands between `from` and `to`.
spec fn segment_at(path: Seq<u8>, from: int, to: int) -> bool {
    &&& 0 <= from <= to <= path.len()
    &&& from == 0 || path[from - 1] == SEPARATOR
    &&& to == path.len() || path[to] == SEPARATOR
    &&& forall|i: int| from <= i < to ==> #[trigger] path[i] != SEPARATOR
}

/// The last segment begins behind the last separator.
proof fn lemma_last_segment(path: Seq<u8>) -> (from: int)
    ensures
        segment_at(path, from, path.len() as int),
        split(path).len() > 0,
        split(path).last() == path.skip(from),
    decreases path.len(),
{
    lemma_split_some(path);
    if path.len() == 0 {
        assert(path.skip(0) =~= Seq::<u8>::empty());
        0
    } else {
        let less = path.drop_last();
        let from = lemma_last_segment(less);
        if path.last() == SEPARATOR {
            assert(path.skip(path.len() as int) =~= Seq::<u8>::empty());
            path.len() as int
        } else {
            assert(split(path).last() == less.skip(from).push(path.last()));
            assert(path.skip(from) =~= less.skip(from).push(path.last()));
            assert forall|i: int| from <= i < path.len() implies #[trigger] path[i] != SEPARATOR by {
                if i < less.len() {
                    assert(less[i] == path[i]);
                }
            }
            assert(from > 0 ==> less[from - 1] == path[from - 1]);
            from
        }
    }
}

/// What stands between two separators is one of the segments, and what ends
/// before the path does is not the last one.
proof fn lemma_segment_found(path: Seq<u8>, from: int, to: int)
    requires
        segment_at(path, from, to),
    ensures
        split(path).contains(path.subrange(from, to)),
        to < path.len() ==> split(path).drop_last().contains(path.subrange(from, to)),
    decreases path.len(),
{
    let segment = path.subrange(from, to);
    let last = lemma_last_segment(path);
    if to == path.len() {
        if last < from {
            assert(path[from - 1] == SEPARATOR);
        }
        if from < last {
            assert(path[last - 1] == SEPARATOR);
        }
        assert(segment =~= path.skip(last));
        assert(split(path)[split(path).len() - 1] == segment);
    } else {
        let less = path.drop_last();
        lemma_split_some(less);
        assert(segment =~= less.subrange(from, to));
        assert(from > 0 ==> less[from - 1] == path[from - 1]);
        assert(to < less.len() ==> less[to] == path[to]);
        assert forall|i: int| from <= i < to implies #[trigger] less[i] != SEPARATOR by {
            assert(path[i] != SEPARATOR);
        }
        lemma_segment_found(less, from, to);
        if path.last() == SEPARATOR {
            assert(split(path).drop_last() =~= split(less));
        } else {
            assert(split(path).drop_last() =~= split(less).drop_last());
        }
        let rest = split(path).drop_last();
        let i = choose|i: int| 0 <= i < rest.len() && rest[i] == segment;
        assert(split(path)[i] == segment);
    }
}

/// Each segment stands between two separators.
proof fn lemma_segment_stands(path: Seq<u8>, i: int) -> (place: (int, int))
    requires
        0 <= i < split(path).len(),
    ensures
        segment_at(path, place.0, place.1),
        split(path)[i] == path.subrange(place.0, place.1),
        i < split(path).len() - 1 ==> place.1 < path.len(),
    decreases path.len(),
{
    let last = lemma_last_segment(path);
    if i == split(path).len() - 1 {
        assert(path.skip(last) =~= path.subrange(last, path.len() as int));
        (last, path.len() as int)
    } else {
        let less = path.drop_last();
        lemma_split_some(less);
        assert(split(path)[i] == split(less)[i]);
        let place = lemma_segment_stands(less, i);
        assert(less.subrange(place.0, place.1) =~= path.subrange(place.0, place.1));
        assert(place.0 > 0 ==> less[place.0 - 1] == path[place.0 - 1]);
        assert(place.1 < less.len() ==> less[place.1] == path[place.1]);
        assert forall|j: int| place.0 <= j < place.1 implies #[trigger] path[j] != SEPARATOR by {
            assert(less[j] != SEPARATOR);
        }
        place
    }
}

/// The names are the segments that are neither empty nor a full stop.
proof fn lemma_names(segments: Seq<Seq<u8>>, segment: Seq<u8>)
    ensures
        named(segments).contains(segment) <==> segments.contains(segment) && segment.len() > 0
            && segment != seq![DOT],
    decreases segments.len(),
{
    if segments.len() > 0 {
        let less = segments.drop_last();
        let last = segments.last();
        lemma_names(less, segment);
        assert(segments.contains(segment) <==> less.contains(segment) || segment == last) by {
            assert(segments[segments.len() - 1] == last);
            if segments.contains(segment) {
                let i = choose|i: int| 0 <= i < segments.len() && segments[i] == segment;
                if i < less.len() {
                    assert(less[i] == segment);
                }
            }
            if less.contains(segment) {
                let i = choose|i: int| 0 <= i < less.len() && less[i] == segment;
                assert(segments[i] == segment);
            }
        }
        let kept = named(less);
        assert(kept.push(last).contains(segment) <==> kept.contains(segment) || segment == last)
            by {
            assert(kept.push(last)[kept.len() as int] == last);
            if kept.contains(segment) {
                let i = choose|i: int| 0 <= i < kept.len() && kept[i] == segment;
                assert(kept.push(last)[i] == segment);
            }
        }
    }
}

/// **A target stays within the root exactly if it does not begin with a slash and
/// none of the segments between its slashes is two full stops.**
pub proof fn targets_within_the_root_never_step_up(target: Seq<u8>)
    ensures
        within_root(target) <==> {
            &&& target.len() == 0 || target[0] != 47
            &&& forall|p: int|
                0 <= p < target.len() - 1 && #[trigger] target[p] == 46 && target[p + 1] == 46 ==> (p
                    > 0 && target[p - 1] != 47) || (p + 2 < target.len() && target[p + 2] != 47)
        },
{
    let up = seq![DOT, DOT];
    let all = split(target);
    let top = lead(target);
    lemma_names(all, up);
    assert(seq![DOT].len() == 1 && seq![SEPARATOR].len() == 1 && up.len() == 2);
    assert(parts(target).contains(up) <==> named(all).contains(up)) by {
        if named(all).contains(up) {
            let i = choose|i: int| 0 <= i < named(all).len() && named(all)[i] == up;
            assert(parts(target)[top.len() + i] == up);
        }
        if parts(target).contains(up) {
            let i = choose|i: int| 0 <= i < parts(target).len() && parts(target)[i] == up;
            if i < top.len() {
                assert(top[i].len() == 1);
            } else {
                assert(named(all)[i - top.len()] == up);
            }
        }
    }
    if all.contains(up) {
        let i = choose|i: int| 0 <= i < all.len() && all[i] == up;
        let place = lemma_segment_stands(target, i);
        let p = place.0;
        assert(target.subrange(p, place.1)[0] == up[0]);
        assert(target.subrange(p, place.1)[1] == up[1]);
        assert(target[p] == 46 && target[p + 1] == 46);
    }
    assert forall|p: int|
        0 <= p < target.len() - 1 && #[trigger] target[p] == 46 && target[p + 1] == 46
            && !all.contains(up) implies (p > 0 && target[p - 1] != 47) || (p + 2 < target.len()
        && target[p + 2] != 47) by {
        if !((p > 0 && target[p - 1] != 47) || (p + 2 < target.len() && target[p + 2] != 47)) {
            assert(segment_at(target, p, p + 2));
            lemma_segment_found(target, p, p + 2);
            assert(target.subrange(p, p + 2) =~= up);
        }
    }
}

/// **A path below another one** begins with that one and ends with what is added,
/// with one slash between them; a path that begins with a slash stands for itself.
pub proof fn joined_paths_hold_both(base: Seq<u8>, tail: Seq<u8>)
    ensures
        tail.len() > 0 && tail[0] == 47 ==> joined(base, tail) == tail,
        !(tail.len() > 0 && tail[0] == 47) ==> {
            let whole = joined(base, tail);
            &&& whole.len() >= base.len() + tail.len()
            &&& whole.take(base.len() as int) == base
            &&& whole.skip(whole.len() - tail.len()) == tail
            &&& base.len() == 0 || base.last() == 47 <==> whole.len() == base.len() + tail.len()
            &&& base.len() > 0 && base.last() != 47 ==> whole.len() == base.len() + 1 + tail.len()
                && whole[base.len() as int] == 47
        },
{
    let whole = joined(base, tail);
    if !absolute(tail) {
        assert(whole.take(base.len() as int) =~= base);
        assert(whole.skip(whole.len() - tail.len()) =~= tail);
    }
}

/// A path without a separator is one segment.
proof fn lemma_plain(name: Seq<u8>)
    requires
        forall|i: int| 0 <= i < name.len() ==> #[trigger] name[i] != SEPARATOR,
    ensures
        split(name) == seq![name],
    decreases name.len(),
{
    if name.len() == 0 {
        assert(name =~= Seq::<u8>::empty());
        lemma_empty_path();
    } else {
        let less = name.drop_last();
        assert forall|i: int| 0 <= i < less.len() implies #[trigger] less[i] != SEPARATOR by {
            assert(name[i] != SEPARATOR);
        }
        lemma_plain(less);
        assert(less.push(name.last()) =~= name);
        assert(split(name) =~= seq![name]);
    }
}

/// What one name adds to a path.
proof fn lemma_one_more(base: Seq<u8>, name: Seq<u8>)
    requires
        base.len() > 0,
        name.len() > 0,
        name != seq![DOT],
        forall|i: int| 0 <= i < name.len() ==> #[trigger] name[i] != SEPARATOR,
    ensures
        parts(joined(base, name)) == parts(base).push(name),
{
    assert(name[0] != SEPARATOR);
    lemma_joined_parts(base, name);
    lemma_plain(name);
    reveal_with_fuel(named, 2);
    let one = seq![name];
    assert(one.drop_last() =~= Seq::<Seq<u8>>::empty());
    assert(named(one) =~= one);
    assert(parts(joined(base, name)) =~= parts(base).push(name));
}

/// **Paths are the same exactly if they go through the same directories to the
/// same name.** Two plain names in two directories are at the same path exactly
/// if the names are equal, byte for byte, and the directories the same.
pub proof fn same_paths_have_the_same_names(
    first: Seq<u8>,
    second: Seq<u8>,
    name: Seq<u8>,
    other: Seq<u8>,
)
    requires
        first.len() > 0 && second.len() > 0,
        name.len() > 0 && other.len() > 0,
        name != seq![46u8] && other != seq![46u8],
        forall|i: int| 0 <= i < name.len() ==> #[trigger] name[i] != 47,
        forall|i: int| 0 <= i < other.len() ==> #[trigger] other[i] != 47,
    ensures
        same_path(joined(first, name), joined(second, other)) <==> name == other && same_path(
            first,
            second,
        ),
        parts(joined(first, name)) == parts(joined(second, other)) <==> name == other && parts(first)
            == parts(second),
{
    lemma_one_more(first, name);
    lemma_one_more(second, other);
    let a = parts(first).push(name);
    let b = parts(second).push(other);
    if a == b {
        assert(a.last() == b.last());
        assert(a.drop_last() =~= parts(first));
        assert(b.drop_last() =~= parts(second));
    }
}

/// **Where a path begins tells it apart**: one plain name is the same path as
/// another one exactly if the names are equal, and as none that begins with a
/// slash.
pub proof fn beginnings_tell_paths_apart(name: Seq<u8>, other: Seq<u8>, tail: Seq<u8>)
    requires
        name.len() > 0 && other.len() > 0,
        forall|i: int| 0 <= i < name.len() ==> #[trigger] name[i] != 47,
        forall|i: int| 0 <= i < other.len() ==> #[trigger] other[i] != 47,
        tail.len() > 0 && tail[0] == 47,
    ensures
        same_path(name, other) <==> name == other,
        !same_path(name, tail),
        same_path(tail, seq![47u8]) <==> named(split(tail)).len() == 0,
{
    lemma_plain(name);
    lemma_plain(other);
    reveal_with_fuel(named, 3);
    assert(parts(name) =~= seq![name]) by {
        assert(seq![name].drop_last() =~= Seq::<Seq<u8>>::empty());
        assert(!absolute(name)) by {
            assert(name[0] != SEPARATOR);
        }
    }
    assert(parts(other) =~= seq![other]) by {
        assert(seq![other].drop_last() =~= Seq::<Seq<u8>>::empty());
        assert(!absolute(other)) by {
            assert(other[0] != SEPARATOR);
        }
    }
    assert(seq![name][0] == name && seq![other][0] == other);
    assert(parts(tail)[0] == seq![SEPARATOR]);
    assert(seq![SEPARATOR][0] == SEPARATOR);
    assert(parts(name)[0][0] != SEPARATOR) by {
        assert(name[0] != SEPARATOR);
    }
    let root = seq![SEPARATOR];
    assert(root.drop_last() =~= Seq::<u8>::empty());
    lemma_empty_path();
    let none = Seq::<u8>::empty();
    assert(split(root) =~= seq![none, none]);
    assert(split(root).drop_last() =~= seq![none]);
    assert(seq![none].drop_last() =~= Seq::<Seq<u8>>::empty());
    assert(named(split(root)) =~= Seq::<Seq<u8>>::empty());
    assert(parts(root) =~= seq![root]);
    assert(parts(tail).len() == 1 + named(split(tail)).len());
    if named(split(tail)).len() == 0 {
        assert(parts(tail) =~= seq![root]);
    }
}

/// **A full stop in front does tell paths apart.**
pub proof fn leading_dots_count(name: Seq<u8>)
    requires
        name.len() > 0,
        name != seq![46u8],
        forall|i: int| 0 <= i < name.len() ==> #[trigger] name[i] != 47,
    ensures
        !same_path(joined(seq![46u8], name), name),
{
    let dot = seq![DOT];
    lemma_one_more(dot, name);
    lemma_plain(dot);
    lemma_plain(name);
    reveal_with_fuel(named, 2);
    assert(seq![dot].drop_last() =~= Seq::<Seq<u8>>::empty());
    assert(seq![name].drop_last() =~= Seq::<Seq<u8>>::empty());
    assert(!absolute(name)) by {
        assert(name[0] != SEPARATOR);
    }
    assert(parts(dot).len() == 1);
    assert(parts(name) =~= seq![name]);
}

/// **Slashes at the end, doubled ones and single full stops do not tell paths
/// apart.**
pub proof fn slashes_do_not_count(base: Seq<u8>, name: Seq<u8>)
    requires
        base.len() > 0,
        name.len() > 0 ==> name[0] != 47,
    ensures
        same_path(base.push(47), base),
        same_path(joined(base.push(47).push(47), name), joined(base, name)),
        same_path(joined(base.push(47).push(46).push(47), name), joined(base, name)),
{
    let none = Seq::<u8>::empty();
    lemma_empty_path();
    reveal_with_fuel(named, 2);
    assert(base.push(47) =~= base.push(SEPARATOR) + none);
    lemma_split_glued(base, none);
    lemma_named_concat(split(base), split(none));
    lemma_split_some(base);
    assert(named(split(base.push(47))) =~= named(split(base)));
    assert(split(base.push(47))[0] == split(base)[0]);
    assert(base.push(47)[0] == base[0]);
    assert(parts(base.push(47)) =~= parts(base));
    let twice = base.push(47).push(47);
    let longer = base.push(47);
    assert(twice =~= longer.push(SEPARATOR) + none);
    lemma_split_glued(longer, none);
    lemma_named_concat(split(longer), split(none));
    lemma_split_some(longer);
    assert(named(split(twice)) =~= named(split(longer)));
    assert(split(twice)[0] == split(longer)[0]);
    assert(parts(twice) =~= parts(longer));
    lemma_joined_parts(twice, name);
    lemma_joined_parts(base, name);
    let dotted = base.push(47).push(46);
    let stop = seq![DOT];
    assert(dotted =~= base.push(SEPARATOR) + stop);
    lemma_split_glued(base, stop);
    lemma_plain(stop);
    lemma_named_concat(split(base), split(stop));
    assert(split(stop).drop_last() =~= Seq::<Seq<u8>>::empty());
    assert(named(split(stop)) =~= Seq::<Seq<u8>>::empty());
    assert(named(split(dotted)) =~= named(split(base)));
    assert(split(dotted)[0] == split(base)[0]);
    assert(dotted[0] == base[0]);
    assert(parts(dotted) =~= parts(base));
    let full = dotted.push(47);
    assert(full =~= dotted.push(SEPARATOR) + none);
    lemma_split_glued(dotted, none);
    lemma_named_concat(split(dotted), split(none));
    lemma_split_some(dotted);
    assert(named(split(full)) =~= named(split(dotted)));
    assert(split(full)[0] == split(dotted)[0]);
    assert(parts(full) =~= parts(dotted));
    lemma_joined_parts(full, name);
}

/// **Above what is in a directory is that directory.**
pub proof fn above_a_name_is_its_directory(base: Seq<u8>, name: Seq<u8>)
    requires
        base.len() > 0,
        name.len() > 0,
        name != seq![46u8],
        forall|i: int| 0 <= i < name.len() ==> #[trigger] name[i] != 47,
    ensures
        parent_of(joined(base, name)) is Some,
        same_path(parent_of(joined(base, name))->0, base),
{
    lemma_one_more(base, name);
    let whole = joined(base, name);
    assert(parts(whole).last() == name);
    assert(name[0] != 47);
    assert(parts(whole) != seq![seq![SEPARATOR]]) by {
        if parts(whole) == seq![seq![SEPARATOR]] {
            assert(seq![seq![SEPARATOR]].last()[0] == SEPARATOR);
        }
    }
    lemma_parent_is_shorter(whole);
    assert(parts(base).push(name).drop_last() =~= parts(base));
}

// ---------------------------------------------------------------------------
// Executable side
// ---------------------------------------------------------------------------

/// Whether two byte rows are equal.
pub fn same_bytes(a: &Vec<u8>, b: &Vec<u8>) -> (equal: bool)
    ensures
        equal == (a@ == b@),
{
    if a.len() != b.len() {
        return false;
    }
    let mut i: usize = 0;
    while i < a.len()
        invariant
            i <= a.len() == b.len(),
            forall|j: int| 0 <= j < i ==> a@[j] == b@[j],
        decreases a.len() - i,
    {
        if a[i] != b[i] {
            return false;
        }
        i = i + 1;
    }
    assert(a@ =~= b@);
    true
}

/// The views of a list of byte rows.
pub open spec fn rows(list: Seq<Vec<u8>>) -> Seq<Seq<u8>> {
    list.map_values(|v: Vec<u8>| v@)
}

fn parts_of(bytes: &Vec<u8>, end: usize) -> (list: Vec<Vec<u8>>)
    requires
        end <= bytes.len(),
    ensures
        rows(list@) == parts(bytes@.take(end as int)),
{
    let mut list: Vec<Vec<u8>> = Vec::new();
    let mut current: Vec<u8> = Vec::new();
    let mut first: bool = true;
    let mut i: usize = 0;
    let ghost path = bytes@.take(end as int);
    if end > 0 && bytes[0] == SEPARATOR {
        let mut top: Vec<u8> = Vec::new();
        top.push(SEPARATOR);
        assert(top@ =~= seq![SEPARATOR]);
        list.push(top);
        assert(rows(list@) =~= seq![seq![SEPARATOR]]);
    }
    let ghost base = rows(list@);
    proof {
        assert(path.take(0) =~= Seq::<u8>::empty());
        assert(split(path.take(0)).drop_last() =~= Seq::<Seq<u8>>::empty());
        assert(base + named(split(path.take(0)).drop_last()) =~= base);
        assert(split(path.take(0)).last() =~= current@);
    }
    while i < end
        invariant
            i <= end <= bytes.len(),
            path == bytes@.take(end as int),
            split(path.take(i as int)).len() > 0,
            split(path.take(i as int)).last() == current@,
            first == (split(path.take(i as int)).len() == 1),
            base == (if absolute(path) {
                seq![seq![SEPARATOR]]
            } else {
                Seq::empty()
            }),
            rows(list@) == (if first {
                base
            } else {
                base + (if !absolute(path) && split(path.take(i as int))[0] == seq![DOT] {
                    seq![seq![DOT]]
                } else {
                    Seq::empty()
                }) + named(split(path.take(i as int)).drop_last())
            }),
        decreases end - i,
    {
        let ghost a = split(path.take(i as int));
        let ghost b = split(path.take(i + 1));
        assert(path.take(i + 1).drop_last() =~= path.take(i as int));
        assert(path.take(i + 1).last() == bytes@[i as int]);
        if bytes[i] == SEPARATOR {
            assert(b.drop_last() =~= a);
            let ghost held = rows(list@);
            proof {
                if first {
                    assert(a.drop_last() =~= Seq::<Seq<u8>>::empty());
                    assert(named(a.drop_last()) =~= Seq::<Seq<u8>>::empty());
                    assert(a[0] == current@);
                }
            }
            let dot = current.len() == 1 && current[0] == DOT;
            assert(dot == (current@ =~= seq![DOT]));
            let rooted = bytes[0] == SEPARATOR;
            if first && dot && !rooted {
                assert(rows(list@.push(current)) =~= rows(list@).push(current@));
                list.push(current);
                assert(rows(list@) =~= base + seq![seq![DOT]] + named(a));
            } else if current.len() == 0 || dot {
                assert(rows(list@) =~= base + (if !absolute(path) && b[0] == seq![DOT] {
                    seq![seq![DOT]]
                } else {
                    Seq::empty()
                }) + named(a));
            } else {
                assert(rows(list@.push(current)) =~= rows(list@).push(current@));
                list.push(current);
                assert(rows(list@) =~= base + (if !absolute(path) && b[0] == seq![DOT] {
                    seq![seq![DOT]]
                } else {
                    Seq::empty()
                }) + named(a));
            }
            current = Vec::new();
            first = false;
            assert(b.last() =~= current@);
        } else {
            current.push(bytes[i]);
            assert(b.last() =~= current@);
            assert(b.drop_last() =~= a.drop_last());
        }
        i = i + 1;
    }
    assert(path.take(end as int) =~= path);
    let ghost a = split(path);
    let dot = current.len() == 1 && current[0] == DOT;
    assert(dot == (current@ =~= seq![DOT]));
    proof {
        if first {
            assert(a.drop_last() =~= Seq::<Seq<u8>>::empty());
            assert(named(a.drop_last()) =~= Seq::<Seq<u8>>::empty());
            assert(a[0] == current@);
            if absolute(path) {
                lemma_one_segment(path);
                assert(path[0] == SEPARATOR);
            }
        }
    }
    if first && dot {
        assert(rows(list@.push(current)) =~= rows(list@).push(current@));
        list.push(current);
        assert(rows(list@) =~= parts(path));
    } else if current.len() == 0 || dot {
        assert(rows(list@) =~= parts(path));
    } else {
        assert(rows(list@.push(current)) =~= rows(list@).push(current@));
        list.push(current);
        assert(rows(list@) =~= parts(path));
    }
    list
}

fn same_rows(a: &Vec<Vec<u8>>, b: &Vec<Vec<u8>>, n: usize) -> (equal: bool)
    requires
        n <= b.len(),
    ensures
        equal == (rows(a@) == rows(b@).take(n as int)),
{
    if a.len() != n {
        assert(rows(a@).len() != n);
        return false;
    }
    let mut i: usize = 0;
    while i < n
        invariant
            i <= n == a.len(),
            n <= b.len(),
            forall|j: int| 0 <= j < i ==> (#[trigger] a@[j])@ == b@[j]@,
        decreases n - i,
    {
        if !same_bytes(&a[i], &b[i]) {
            assert(rows(a@)[i as int] != rows(b@).take(n as int)[i as int]);
            return false;
        }
        i = i + 1;
    }
    assert(rows(a@) =~= rows(b@).take(n as int));
    true
}

impl FsPath {
    /// The path made of `bytes`.
    pub fn from_bytes(bytes: Vec<u8>) -> (path: FsPath)
        ensures
            path@ == bytes@,
    {
        FsPath { bytes }
    }

    /// The path that `text` writes.
    pub fn new(text: &str) -> (path: FsPath)
        ensures
            path@ == encode_utf8(text@),
    {
        FsPath { bytes: text.as_bytes_vec() }
    }

    /// The bytes of the path.
    pub fn as_bytes(&self) -> (bytes: &Vec<u8>)
        ensures
            bytes@ == self@,
    {
        &self.bytes
    }

    /// A copy of the bytes of the path.
    pub fn clone_bytes(&self) -> (bytes: Vec<u8>)
        ensures
            bytes@ == self@,
    {
        self.bytes.clone()
    }

    /// The path as text, with anything that is not UTF-8 replaced.
    pub fn display(&self) -> (text: String)
        ensures
            text@ == text::lossy_text(self@),
            valid_utf8(self@) ==> text@ == decode_utf8(self@),
    {
        text::from_utf8_lossy(self.bytes.as_slice())
    }

    /// Whether the path begins at the root.
    pub fn is_absolute(&self) -> (yes: bool)
        ensures
            yes == absolute(self@),
    {
        self.bytes.len() > 0 && self.bytes[0] == SEPARATOR
    }

    /// Whether the path never steps up and is relative.
    pub fn stays_within(&self) -> (yes: bool)
        ensures
            yes == within_root(self@),
    {
        if self.is_absolute() {
            return false;
        }
        let list = parts_of(&self.bytes, self.bytes.len());
        assert(self.bytes@.take(self.bytes@.len() as int) =~= self@);
        let mut i: usize = 0;
        while i < list.len()
            invariant
                i <= list.len(),
                rows(list@) == parts(self@),
                forall|j: int| 0 <= j < i ==> #[trigger] parts(self@)[j] != seq![DOT, DOT],
            decreases list.len() - i,
        {
            assert(rows(list@)[i as int] == list@[i as int]@);
            if list[i].len() == 2 && list[i][0] == DOT && list[i][1] == DOT {
                assert(list@[i as int]@ =~= seq![DOT, DOT]);
                assert(parts(self@)[i as int] == seq![DOT, DOT]);
                return false;
            }
            assert(parts(self@)[i as int] != seq![DOT, DOT]);
            i = i + 1;
        }
        assert(rows(list@).len() == list@.len());
        true
    }

    /// `tail` resolved against this path.
    pub fn join_path(&self, tail: &FsPath) -> (path: FsPath)
        ensures
            path@ == joined(self@, tail@),
    {
        if tail.is_absolute() {
            return tail.clone();
        }
        let mut bytes: Vec<u8> = self.clone().bytes;
        if bytes.len() > 0 && bytes[bytes.len() - 1] != SEPARATOR {
            bytes.push(SEPARATOR);
        }
        let mut more: Vec<u8> = tail.clone().bytes;
        bytes.append(&mut more);
        FsPath { bytes }
    }

    /// `name` below this path.
    pub fn join(&self, name: &str) -> (path: FsPath)
        ensures
            path@ == child(self@, name@),
    {
        self.join_path(&FsPath::new(name))
    }

    /// Whether both paths have the same parts.
    pub fn same_as(&self, other: &FsPath) -> (yes: bool)
        ensures
            yes == same_path(self@, other@),
    {
        let a = parts_of(&self.bytes, self.bytes.len());
        let b = parts_of(&other.bytes, other.bytes.len());
        assert(self.bytes@.take(self.bytes@.len() as int) =~= self@);
        assert(other.bytes@.take(other.bytes@.len() as int) =~= other@);
        assert(rows(b@).take(b@.len() as int) =~= rows(b@));
        same_rows(&a, &b, b.len())
    }

    /// The path above this one; neither the root nor the empty path has one.
    pub fn parent(&self) -> (path: Option<FsPath>)
        ensures
            path is Some == parent_of(self@) is Some,
            path is Some ==> path->0@ == parent_of(self@)->0,
    {
        let all = parts_of(&self.bytes, self.bytes.len());
        assert(self.bytes@.take(self.bytes@.len() as int) =~= self@);
        assert(rows(all@).len() == all@.len());
        if all.len() == 0 {
            return None;
        }
        if all.len() == 1 && all[0].len() == 1 && all[0][0] == SEPARATOR {
            assert(all@[0]@ =~= seq![SEPARATOR]);
            assert(rows(all@) =~= seq![seq![SEPARATOR]]);
            return None;
        }
        proof {
            if parts(self@) =~= seq![seq![SEPARATOR]] {
                assert(rows(all@)[0] == all@[0]@);
            }
            lemma_upper_exists(self@);
            assert(rows(all@).take(all@.len() - 1) =~= parts(self@).drop_last());
        }
        let mut k: usize = 0;
        while k < self.bytes.len()
            invariant
                k <= self.bytes.len(),
                all.len() > 0,
                has_parent(self@),
                rows(all@) == parts(self@),
                rows(all@).take(all@.len() - 1) == parts(self@).drop_last(),
                exists|j: int| #[trigger] upper(self@, j),
                forall|j: int| 0 <= j < k ==> !#[trigger] upper(self@, j),
            decreases self.bytes.len() - k,
        {
            let above = parts_of(&self.bytes, k);
            if same_rows(&above, &all, all.len() - 1) {
                assert(upper(self@, k as int));
                let mut bytes: Vec<u8> = Vec::new();
                let mut i: usize = 0;
                while i < k
                    invariant
                        i <= k <= self.bytes.len(),
                        bytes@ == self.bytes@.take(i as int),
                    decreases k - i,
                {
                    bytes.push(self.bytes[i]);
                    i = i + 1;
                }
                proof {
                    assert(parent_length(self@, k as int));
                    lemma_parent_chosen(self@, k as int);
                }
                return Some(FsPath { bytes });
            }
            assert(!upper(self@, k as int));
            k = k + 1;
        }
        proof {
            let j = choose|j: int| #[trigger] upper(self@, j);
            lemma_parent_shorter(self@, j);
        }
        None
    }
}

/// Paths compare by their parts.
impl PartialEq for FsPath {
    fn eq(&self, other: &FsPath) -> (yes: bool) {
        self.same_as(other)
    }
}

impl PartialEqSpecImpl for FsPath {
    open spec fn obeys_eq_spec() -> bool {
        true
    }

    open spec fn eq_spec(&self, other: &FsPath) -> bool {
        same_path(self@, other@)
    }
}

impl Clone for FsPath {
    fn clone(&self) -> (copy: FsPath)
        ensures
            copy@ == self@,
    {
        FsPath { bytes: self.bytes.clone() }
    }
}

/// The views of a list of paths.
pub open spec fn views(list: Seq<FsPath>) -> Seq<Seq<u8>> {
    list.map_values(|p: FsPath| p@)
}

/// A copy of a list of paths.
pub fn copied_paths(paths: &Vec<FsPath>) -> (copy: Vec<FsPath>)
    ensures
        views(copy@) == views(paths@),
{
    let mut copy: Vec<FsPath> = Vec::new();
    let mut i: usize = 0;
    while i < paths.len()
        invariant
            i <= paths.len(),
            copy.len() == i,
            forall|j: int| 0 <= j < i ==> (#[trigger] copy@[j])@ == paths@[j]@,
        decreases paths.len() - i,
    {
        copy.push(paths[i].clone());
        i = i + 1;
    }
    assert(views(copy@) =~= views(paths@));
    copy
}

/// Whether `target` is a relative path that never steps up.
pub fn target_within_root(target: &str) -> (yes: bool)
    ensures
        yes == within_root(encode_utf8(target@)),
{
    FsPath::new(target).stays_within()
}

} // verus!
