//! The lexical model of Unix path syntax that the rest of the crate is built on.
//!
//! A path string is read the way the host's path parser reads it: `/` separates
//! segments, empty segments and `.` segments are dropped from the body, a leading
//! `/` is the root, and a leading `.` segment of a relative path is kept as the
//! current-directory component.

use vstd::prelude::*;
use crate::chars::{views, clone_chars, chars_eq, extend_chars};

verus! {

/// Completed segments and the segment still being read, after reading `s`.
pub open spec fn split_state(s: Seq<char>) -> (Seq<Seq<char>>, Seq<char>)
    decreases s.len(),
{
    if s.len() == 0 {
        (Seq::empty(), Seq::empty())
    } else {
        let prev = split_state(s.drop_last());
        if s.last() == '/' {
            (prev.0.push(prev.1), Seq::empty())
        } else {
            (prev.0, prev.1.push(s.last()))
        }
    }
}

/// The `/`-separated segments of `s`, empty ones included.
pub open spec fn segments(s: Seq<char>) -> Seq<Seq<char>> {
    split_state(s).0.push(split_state(s).1)
}

/// The parent-directory component `..`.
pub open spec fn parent_item() -> Seq<char> {
    seq!['.', '.']
}

/// The current-directory component `.`.
pub open spec fn cur_item() -> Seq<char> {
    seq!['.']
}

/// The root component `/`.
pub open spec fn root_item() -> Seq<char> {
    seq!['/']
}

/// Segments that do not yield a body component.
pub open spec fn is_skipped(seg: Seq<char>) -> bool {
    seg.len() == 0 || seg == cur_item()
}

/// Body components of a list of segments: every segment that is neither empty nor `.`.
pub open spec fn items_of(segs: Seq<Seq<char>>) -> Seq<Seq<char>>
    decreases segs.len(),
{
    if segs.len() == 0 {
        Seq::empty()
    } else if is_skipped(segs.last()) {
        items_of(segs.drop_last())
    } else {
        items_of(segs.drop_last()).push(segs.last())
    }
}

/// The body components of `s` (after any root or leading `.`).
pub open spec fn body(s: Seq<char>) -> Seq<Seq<char>> {
    items_of(segments(s))
}

/// Whether `s` starts with the root separator (Unix absolute path).
pub open spec fn has_root(s: Seq<char>) -> bool {
    s.len() > 0 && s[0] == '/'
}

/// Whether a relative `s` starts with a `.` segment, which the parser keeps.
pub open spec fn has_cur_head(s: Seq<char>) -> bool {
    !has_root(s) && s.len() > 0 && s[0] == '.' && (s.len() == 1 || s[1] == '/')
}

/// The components of `s`, each written as the text it stands for
/// (`/` for the root, `.` for a leading current directory, `..`, or a name).
pub open spec fn components(s: Seq<char>) -> Seq<Seq<char>> {
    if has_root(s) {
        seq![root_item()] + body(s)
    } else if has_cur_head(s) {
        seq![cur_item()] + body(s)
    } else {
        body(s)
    }
}

/// One step of lexical normalization: push a name, or let `..` cancel the previous name.
pub open spec fn norm_step(abs: bool, acc: Seq<Seq<char>>, item: Seq<char>) -> Seq<Seq<char>> {
    if item == parent_item() {
        if acc.len() == 0 {
            if abs {
                acc
            } else {
                acc.push(item)
            }
        } else if acc.last() == parent_item() {
            acc.push(item)
        } else {
            acc.drop_last()
        }
    } else {
        acc.push(item)
    }
}

/// Lexical normalization of a list of body components.
pub open spec fn norm_items(abs: bool, items: Seq<Seq<char>>) -> Seq<Seq<char>>
    decreases items.len(),
{
    if items.len() == 0 {
        Seq::empty()
    } else {
        norm_step(abs, norm_items(abs, items.drop_last()), items.last())
    }
}

/// Names joined with `/`.
pub open spec fn join_items(items: Seq<Seq<char>>) -> Seq<char>
    decreases items.len(),
{
    if items.len() == 0 {
        Seq::empty()
    } else if items.len() == 1 {
        items[0]
    } else {
        join_items(items.drop_last()) + seq!['/'] + items.last()
    }
}

/// The text of a path built from an optional root and body components;
/// an empty relative path is written `.`.
pub open spec fn render(abs: bool, items: Seq<Seq<char>>) -> Seq<char> {
    if abs {
        seq!['/'] + join_items(items)
    } else if items.len() == 0 {
        cur_item()
    } else {
        join_items(items)
    }
}

/// The lexically normalized form of a non-empty path.
pub open spec fn normalized(s: Seq<char>) -> Seq<char> {
    render(has_root(s), norm_items(has_root(s), body(s)))
}

/// Whether `s` holds a NUL character.
pub open spec fn has_nul(s: Seq<char>) -> bool {
    s.contains('\0')
}

/// The text of `child` joined onto `base` the way the host joins paths:
/// an absolute child replaces the base, otherwise a separator is added when needed.
pub open spec fn join_path(base: Seq<char>, child: Seq<char>) -> Seq<char> {
    if has_root(child) || base.len() == 0 {
        child
    } else if base.last() == '/' {
        base + child
    } else {
        base + seq!['/'] + child
    }
}

/// Whether `root`'s components are a prefix of `path`'s components.
pub open spec fn lexically_inside(path: Seq<char>, root: Seq<char>) -> bool {
    components(root).is_prefix_of(components(path))
}

/// A component produced by the body parser: non-empty, without separator, not `.`.
pub open spec fn item_ok(item: Seq<char>) -> bool {
    item.len() > 0 && !item.contains('/') && item != cur_item()
}

/// The shape of a normalized component list: all `..` come first, none after the root.
pub open spec fn normal_form(abs: bool, items: Seq<Seq<char>>) -> bool {
    &&& forall|i: int| 0 <= i < items.len() ==> item_ok(#[trigger] items[i])
    &&& forall|i: int, j: int|
        0 <= i < j < items.len() && items[j] == parent_item() ==> items[i] == parent_item()
    &&& abs ==> forall|i: int| 0 <= i < items.len() ==> items[i] != parent_item()
}

// ---------------------------------------------------------------------------
// Lemmas about the parser.

/// Segments never contain a separator.
pub proof fn lemma_split_state_no_sep(s: Seq<char>)
    ensures
        !split_state(s).1.contains('/'),
        forall|i: int| 0 <= i < split_state(s).0.len() ==> !(#[trigger] split_state(s).0[i]).contains('/'),
    decreases s.len(),
{
    if s.len() > 0 {
        lemma_split_state_no_sep(s.drop_last());
        let prev = split_state(s.drop_last());
        if s.last() != '/' {
            assert forall|c: char| prev.1.push(s.last()).contains(c) implies c != '/' by {
                let k = choose|k: int| 0 <= k < prev.1.push(s.last()).len() && prev.1.push(s.last())[k] == c;
                if k < prev.1.len() {
                    assert(prev.1.contains(c));
                }
            }
        }
    }
}

/// The body parser yields only well-formed components.
pub proof fn lemma_items_of_ok(segs: Seq<Seq<char>>)
    requires
        forall|i: int| 0 <= i < segs.len() ==> !(#[trigger] segs[i]).contains('/'),
    ensures
        forall|i: int| 0 <= i < items_of(segs).len() ==> item_ok(#[trigger] items_of(segs)[i]),
    decreases segs.len(),
{
    if segs.len() > 0 {
        assert forall|i: int| 0 <= i < segs.drop_last().len() implies !(#[trigger] segs.drop_last()[i]).contains('/') by {
            assert(segs.drop_last()[i] == segs[i]);
        }
        lemma_items_of_ok(segs.drop_last());
        assert(!segs[segs.len() - 1].contains('/'));
        let prev = items_of(segs.drop_last());
        if !is_skipped(segs.last()) {
            assert forall|i: int| 0 <= i < items_of(segs).len() implies item_ok(#[trigger] items_of(segs)[i]) by {
                if i < prev.len() {
                    assert(items_of(segs)[i] == prev[i]);
                } else {
                    assert(items_of(segs)[i] == segs.last());
                }
            }
        }
    }
}

/// Every body component of a path is well formed.
pub proof fn lemma_body_ok(s: Seq<char>)
    ensures
        forall|i: int| 0 <= i < body(s).len() ==> item_ok(#[trigger] body(s)[i]),
{
    lemma_split_state_no_sep(s);
    let st = split_state(s);
    assert forall|i: int| 0 <= i < segments(s).len() implies !(#[trigger] segments(s)[i]).contains('/') by {
        if i < st.0.len() {
            assert(segments(s)[i] == st.0[i]);
        }
    }
    lemma_items_of_ok(segments(s));
}

/// A text without separators is a single segment.
pub proof fn lemma_split_state_plain(y: Seq<char>)
    requires
        !y.contains('/'),
    ensures
        split_state(y) == (Seq::<Seq<char>>::empty(), y),
    decreases y.len(),
{
    if y.len() > 0 {
        assert(!y.drop_last().contains('/')) by {
            if y.drop_last().contains('/') {
                let k = choose|k: int| 0 <= k < y.drop_last().len() && y.drop_last()[k] == '/';
                assert(y[k] == '/');
            }
        }
        lemma_split_state_plain(y.drop_last());
        assert(y[y.len() - 1] != '/');
        assert(y.drop_last().push(y.last()) =~= y);
    }
}

/// Reading `x`, a separator, then `y` gives the segments of `x` followed by those of `y`.
pub proof fn lemma_segments_concat(x: Seq<char>, y: Seq<char>)
    ensures
        segments(x + seq!['/'] + y) == segments(x) + segments(y),
    decreases y.len(),
{
    let xs = x + seq!['/'];
    if y.len() == 0 {
        assert(xs + y =~= xs);
        assert(xs.drop_last() =~= x);
        assert(split_state(xs) == (split_state(x).0.push(split_state(x).1), Seq::<char>::empty()));
        assert(segments(y) =~= seq![Seq::<char>::empty()]);
        assert(segments(xs + y) =~= segments(x) + segments(y));
    } else {
        let y2 = y.drop_last();
        let c = y.last();
        lemma_segments_concat(x, y2);
        assert((xs + y).drop_last() =~= xs + y2);
        assert((xs + y).last() == c);
        let p = split_state(xs + y2);
        let q = split_state(y2);
        assert(segments(xs + y2) == segments(x) + segments(y2));
        if c == '/' {
            assert(split_state(xs + y) == (p.0.push(p.1), Seq::<char>::empty()));
            assert(split_state(y) == (q.0.push(q.1), Seq::<char>::empty()));
            assert(segments(xs + y) =~= segments(xs + y2).push(Seq::<char>::empty()));
            assert(segments(y) =~= segments(y2).push(Seq::<char>::empty()));
            assert(segments(xs + y) =~= segments(x) + segments(y));
        } else {
            assert(split_state(xs + y) == (p.0, p.1.push(c)));
            assert(split_state(y) == (q.0, q.1.push(c)));
            let a = segments(x);
            let sy2 = segments(y2);
            assert(segments(xs + y2) =~= p.0.push(p.1));
            assert(segments(xs + y) =~= p.0.push(p.1.push(c)));
            assert(segments(y) =~= q.0.push(q.1.push(c)));
            // p.0.push(p.1) == a + q.0.push(q.1)
            assert(p.0.push(p.1) =~= a + q.0.push(q.1));
            assert(p.0.push(p.1).len() == (a + q.0.push(q.1)).len());
            assert(p.0.len() == a.len() + q.0.len());
            assert(p.0 =~= a + q.0) by {
                assert forall|i: int| 0 <= i < p.0.len() implies p.0[i] == (a + q.0)[i] by {
                    assert(p.0[i] == p.0.push(p.1)[i]);
                    assert((a + q.0.push(q.1))[i] == (a + q.0)[i]);
                }
            }
            assert(p.1 == q.1) by {
                assert(p.0.push(p.1)[p.0.len() as int] == (a + q.0.push(q.1))[p.0.len() as int]);
            }
            assert(segments(xs + y) =~= a + segments(y));
        }
    }
}

/// Body components distribute over concatenated segment lists.
pub proof fn lemma_items_of_concat(a: Seq<Seq<char>>, b: Seq<Seq<char>>)
    ensures
        items_of(a + b) == items_of(a) + items_of(b),
    decreases b.len(),
{
    if b.len() == 0 {
        assert(a + b =~= a);
        assert(items_of(a) + items_of(b) =~= items_of(a));
    } else {
        lemma_items_of_concat(a, b.drop_last());
        assert((a + b).drop_last() =~= a + b.drop_last());
        assert((a + b).last() == b.last());
        if is_skipped(b.last()) {
        } else {
            assert(items_of(a) + items_of(b.drop_last()).push(b.last()) =~= (items_of(a)
                + items_of(b.drop_last())).push(b.last()));
        }
    }
}

/// A list of well-formed components is its own body.
pub proof fn lemma_items_of_ok_identity(items: Seq<Seq<char>>)
    requires
        forall|i: int| 0 <= i < items.len() ==> item_ok(#[trigger] items[i]),
    ensures
        items_of(items) == items,
    decreases items.len(),
{
    if items.len() > 0 {
        assert forall|i: int| 0 <= i < items.drop_last().len() implies item_ok(#[trigger] items.drop_last()[i]) by {
            assert(items.drop_last()[i] == items[i]);
        }
        lemma_items_of_ok_identity(items.drop_last());
        assert(item_ok(items[items.len() - 1]));
        assert(items.drop_last().push(items.last()) =~= items);
    }
}

/// The segments of joined well-formed components are those components.
pub proof fn lemma_segments_join(items: Seq<Seq<char>>)
    requires
        items.len() > 0,
        forall|i: int| 0 <= i < items.len() ==> item_ok(#[trigger] items[i]),
    ensures
        segments(join_items(items)) == items,
    decreases items.len(),
{
    if items.len() == 1 {
        assert(item_ok(items[0]));
        lemma_split_state_plain(items[0]);
        assert(segments(items[0]) =~= seq![items[0]]);
        assert(items =~= seq![items[0]]);
    } else {
        let d = items.drop_last();
        assert forall|i: int| 0 <= i < d.len() implies item_ok(#[trigger] d[i]) by {
            assert(d[i] == items[i]);
        }
        lemma_segments_join(d);
        lemma_segments_concat(join_items(d), items.last());
        assert(item_ok(items[items.len() - 1]));
        lemma_split_state_plain(items.last());
        assert(segments(items.last()) =~= seq![items.last()]);
        assert(d + seq![items.last()] =~= items);
    }
}

/// The text of a well-formed item list begins with a separator only after a root.
proof fn lemma_join_first(items: Seq<Seq<char>>)
    requires
        items.len() > 0,
        forall|i: int| 0 <= i < items.len() ==> item_ok(#[trigger] items[i]),
    ensures
        join_items(items).len() > 0,
        join_items(items)[0] == items[0][0],
        join_items(items).len() >= items[0].len(),
        join_items(items).subrange(0, items[0].len() as int) == items[0],
    decreases items.len(),
{
    assert(item_ok(items[0]));
    if items.len() > 1 {
        let d = items.drop_last();
        assert forall|i: int| 0 <= i < d.len() implies item_ok(#[trigger] d[i]) by {
            assert(d[i] == items[i]);
        }
        lemma_join_first(d);
        let j = join_items(items);
        assert(j == join_items(d) + seq!['/'] + items.last());
        assert(j.subrange(0, items[0].len() as int) =~= join_items(d).subrange(0, items[0].len() as int));
    }
}

/// Parsing a rendered normal-form list gives back its root flag and components.
pub proof fn lemma_parse_render(abs: bool, items: Seq<Seq<char>>)
    requires
        normal_form(abs, items),
    ensures
        has_root(render(abs, items)) == abs,
        body(render(abs, items)) == items,
        render(abs, items).len() > 0,
{
    let r = render(abs, items);
    if items.len() > 0 {
        lemma_segments_join(items);
        lemma_items_of_ok_identity(items);
        lemma_join_first(items);
        assert(item_ok(items[0]));
        assert(items[0][0] != '/') by {
            assert(items[0].contains(items[0][0]));
        }
    }
    if abs {
        let j = join_items(items);
        assert(r =~= Seq::<char>::empty() + seq!['/'] + j);
        lemma_segments_concat(Seq::<char>::empty(), j);
        assert(split_state(Seq::<char>::empty()) == (Seq::<Seq<char>>::empty(), Seq::<char>::empty()));
        assert(segments(Seq::<char>::empty()) =~= seq![Seq::<char>::empty()]);
        lemma_items_of_concat(seq![Seq::<char>::empty()], segments(j));
        assert(seq![Seq::<char>::empty()].drop_last() =~= Seq::<Seq<char>>::empty());
        assert(items_of(Seq::<Seq<char>>::empty()) =~= Seq::<Seq<char>>::empty());
        assert(is_skipped(seq![Seq::<char>::empty()].last()));
        assert(items_of(seq![Seq::<char>::empty()]) =~= Seq::<Seq<char>>::empty());
        if items.len() == 0 {
            assert(j =~= Seq::<char>::empty());
            assert(segments(j) =~= seq![Seq::<char>::empty()]);
            assert(items_of(segments(r)) =~= Seq::<Seq<char>>::empty());
        } else {
            assert(items_of(segments(r)) =~= items);
        }
    } else if items.len() == 0 {
        assert(r == cur_item());
        lemma_split_state_plain(cur_item());
        assert(segments(r) =~= seq![cur_item()]);
        assert(seq![cur_item()].drop_last() =~= Seq::<Seq<char>>::empty());
        assert(items_of(Seq::<Seq<char>>::empty()) =~= Seq::<Seq<char>>::empty());
        assert(is_skipped(seq![cur_item()].last()));
        assert(body(r) =~= Seq::<Seq<char>>::empty());
    } else {
    }
}

/// Normalizing well-formed components gives a list in normal form.
pub proof fn lemma_norm_items_normal(abs: bool, items: Seq<Seq<char>>)
    requires
        forall|i: int| 0 <= i < items.len() ==> item_ok(#[trigger] items[i]),
    ensures
        normal_form(abs, norm_items(abs, items)),
    decreases items.len(),
{
    if items.len() > 0 {
        let d = items.drop_last();
        assert forall|i: int| 0 <= i < d.len() implies item_ok(#[trigger] d[i]) by {
            assert(d[i] == items[i]);
        }
        lemma_norm_items_normal(abs, d);
        let acc = norm_items(abs, d);
        let it = items.last();
        assert(item_ok(items[items.len() - 1]));
        let r = norm_step(abs, acc, it);
        if it == parent_item() {
            if acc.len() == 0 {
            } else if acc.last() == parent_item() {
                assert(!abs);
                assert forall|i: int, j: int|
                    0 <= i < j < r.len() && r[j] == parent_item() implies r[i] == parent_item() by {
                    if j < acc.len() {
                        assert(r[j] == acc[j]);
                    } else {
                        assert(acc[acc.len() - 1] == parent_item());
                    }
                    if i < acc.len() - 1 {
                        assert(r[i] == acc[i]);
                    } else {
                        assert(r[i] == acc[acc.len() - 1]);
                    }
                }
            } else {
                assert forall|i: int, j: int|
                    0 <= i < j < r.len() && r[j] == parent_item() implies r[i] == parent_item() by {
                    assert(r[i] == acc[i]);
                    assert(r[j] == acc[j]);
                }
            }
        } else {
            assert forall|i: int, j: int|
                0 <= i < j < r.len() && r[j] == parent_item() implies r[i] == parent_item() by {
                assert(r[i] == acc[i]);
                if j < acc.len() {
                    assert(r[j] == acc[j]);
                }
            }
        }
    }
}

/// A list already in normal form is unchanged by normalization.
pub proof fn lemma_norm_items_fixed(abs: bool, items: Seq<Seq<char>>)
    requires
        normal_form(abs, items),
    ensures
        norm_items(abs, items) == items,
    decreases items.len(),
{
    if items.len() > 0 {
        let d = items.drop_last();
        assert(normal_form(abs, d)) by {
            assert forall|i: int| 0 <= i < d.len() implies item_ok(#[trigger] d[i]) by {
                assert(d[i] == items[i]);
            }
            assert forall|i: int, j: int|
                0 <= i < j < d.len() && d[j] == parent_item() implies d[i] == parent_item() by {
                assert(d[i] == items[i]);
                assert(d[j] == items[j]);
            }
            assert forall|i: int| abs && 0 <= i < d.len() implies d[i] != parent_item() by {
                assert(d[i] == items[i]);
            }
        }
        lemma_norm_items_fixed(abs, d);
        let it = items.last();
        assert(d.push(it) =~= items);
        if it == parent_item() {
            assert(!abs);
            if d.len() > 0 {
                assert(items[d.len() - 1] == parent_item());
            }
        } else {
        }
    }
}

/// Normalization is idempotent on the text level.
pub proof fn lemma_normalized_idempotent(s: Seq<char>)
    ensures
        normalized(normalized(s)) == normalized(s),
        normalized(s).len() > 0,
{
    let abs = has_root(s);
    lemma_body_ok(s);
    lemma_norm_items_normal(abs, body(s));
    let n = norm_items(abs, body(s));
    lemma_parse_render(abs, n);
    lemma_norm_items_fixed(abs, n);
}


/// Every component of a list avoids the character `x`.
pub open spec fn all_avoid(items: Seq<Seq<char>>, x: char) -> bool {
    forall|i: int| 0 <= i < items.len() ==> !(#[trigger] items[i]).contains(x)
}

proof fn lemma_push_avoids(t: Seq<char>, c: char, x: char)
    requires
        !t.contains(x),
        c != x,
    ensures
        !t.push(c).contains(x),
{
    if t.push(c).contains(x) {
        let k = choose|k: int| 0 <= k < t.push(c).len() && t.push(c)[k] == x;
        if k < t.len() {
            assert(t[k] == x);
        }
    }
}

proof fn lemma_concat_avoids(a: Seq<char>, b: Seq<char>, x: char)
    requires
        !a.contains(x),
        !b.contains(x),
    ensures
        !(a + b).contains(x),
{
    if (a + b).contains(x) {
        let k = choose|k: int| 0 <= k < (a + b).len() && (a + b)[k] == x;
        if k < a.len() {
            assert(a[k] == x);
        } else {
            assert(b[k - a.len()] == x);
        }
    }
}

/// Segments of a text avoid every character the text avoids.
pub proof fn lemma_split_state_avoids(s: Seq<char>, x: char)
    requires
        !s.contains(x),
    ensures
        all_avoid(segments(s), x),
    decreases s.len(),
{
    if s.len() > 0 {
        assert(!s.drop_last().contains(x)) by {
            if s.drop_last().contains(x) {
                let k = choose|k: int| 0 <= k < s.drop_last().len() && s.drop_last()[k] == x;
                assert(s[k] == x);
            }
        }
        lemma_split_state_avoids(s.drop_last(), x);
        let prev = split_state(s.drop_last());
        assert(segments(s.drop_last()) == prev.0.push(prev.1));
        assert(!prev.1.contains(x)) by {
            assert(segments(s.drop_last())[prev.0.len() as int] == prev.1);
        }
        assert(all_avoid(prev.0, x)) by {
            assert forall|i: int| 0 <= i < prev.0.len() implies !(#[trigger] prev.0[i]).contains(x) by {
                assert(segments(s.drop_last())[i] == prev.0[i]);
            }
        }
        assert(s[s.len() - 1] != x);
        if s.last() == '/' {
            assert(!Seq::<char>::empty().contains(x));
            assert forall|i: int| 0 <= i < segments(s).len() implies !(#[trigger] segments(s)[i]).contains(x) by {
                if i < prev.0.len() {
                    assert(segments(s)[i] == prev.0[i]);
                } else if i == prev.0.len() {
                    assert(segments(s)[i] == prev.1);
                } else {
                    assert(segments(s)[i] == Seq::<char>::empty());
                }
            }
        } else {
            lemma_push_avoids(prev.1, s.last(), x);
            assert forall|i: int| 0 <= i < segments(s).len() implies !(#[trigger] segments(s)[i]).contains(x) by {
                if i < prev.0.len() {
                    assert(segments(s)[i] == prev.0[i]);
                } else {
                    assert(segments(s)[i] == prev.1.push(s.last()));
                }
            }
        }
    }
}

/// Body components avoid every character their segments avoid.
pub proof fn lemma_items_of_avoids(segs: Seq<Seq<char>>, x: char)
    requires
        all_avoid(segs, x),
    ensures
        all_avoid(items_of(segs), x),
    decreases segs.len(),
{
    if segs.len() > 0 {
        let d = segs.drop_last();
        assert(all_avoid(d, x)) by {
            assert forall|i: int| 0 <= i < d.len() implies !(#[trigger] d[i]).contains(x) by {
                assert(d[i] == segs[i]);
            }
        }
        lemma_items_of_avoids(d, x);
        let prev = items_of(d);
        assert(!segs[segs.len() - 1].contains(x));
        if !is_skipped(segs.last()) {
            assert forall|i: int| 0 <= i < items_of(segs).len() implies !(#[trigger] items_of(segs)[i]).contains(x) by {
                if i < prev.len() {
                    assert(items_of(segs)[i] == prev[i]);
                } else {
                    assert(items_of(segs)[i] == segs.last());
                }
            }
        }
    }
}

/// Normalized components avoid every character (other than `.`) the input avoids.
pub proof fn lemma_norm_items_avoids(abs: bool, items: Seq<Seq<char>>, x: char)
    requires
        all_avoid(items, x),
        x != '.',
    ensures
        all_avoid(norm_items(abs, items), x),
    decreases items.len(),
{
    if items.len() > 0 {
        let d = items.drop_last();
        assert(all_avoid(d, x)) by {
            assert forall|i: int| 0 <= i < d.len() implies !(#[trigger] d[i]).contains(x) by {
                assert(d[i] == items[i]);
            }
        }
        lemma_norm_items_avoids(abs, d, x);
        let acc = norm_items(abs, d);
        let it = items.last();
        assert(!items[items.len() - 1].contains(x));
        let r = norm_step(abs, acc, it);
        assert forall|i: int| 0 <= i < r.len() implies !(#[trigger] r[i]).contains(x) by {
            if i < acc.len() {
                assert(r[i] == acc[i]);
            } else {
                assert(r[i] == it);
            }
        }
    }
}

/// Joined components avoid every character (other than `/`) the components avoid.
pub proof fn lemma_join_avoids(items: Seq<Seq<char>>, x: char)
    requires
        all_avoid(items, x),
        x != '/',
    ensures
        !join_items(items).contains(x),
    decreases items.len(),
{
    if items.len() == 1 {
        assert(!items[0].contains(x));
    } else if items.len() > 1 {
        let d = items.drop_last();
        assert(all_avoid(d, x)) by {
            assert forall|i: int| 0 <= i < d.len() implies !(#[trigger] d[i]).contains(x) by {
                assert(d[i] == items[i]);
            }
        }
        lemma_join_avoids(d, x);
        assert(!items[items.len() - 1].contains(x));
        lemma_push_avoids(join_items(d), '/', x);
        assert(join_items(d) + seq!['/'] =~= join_items(d).push('/'));
        lemma_concat_avoids(join_items(d) + seq!['/'], items.last(), x);
    }
}

/// Normalization never introduces a NUL character.
pub proof fn lemma_normalized_no_nul(s: Seq<char>)
    requires
        !has_nul(s),
    ensures
        !has_nul(normalized(s)),
{
    let abs = has_root(s);
    lemma_split_state_avoids(s, '\0');
    lemma_items_of_avoids(segments(s), '\0');
    lemma_norm_items_avoids(abs, body(s), '\0');
    let n = norm_items(abs, body(s));
    lemma_join_avoids(n, '\0');
    if abs {
        lemma_concat_avoids(seq!['/'], join_items(n), '\0');
    }
    if !abs && n.len() == 0 {
        assert(!cur_item().contains('\0')) by {
            if cur_item().contains('\0') {
                let k = choose|k: int| 0 <= k < cur_item().len() && cur_item()[k] == '\0';
            }
        }
    }
}


// ---------------------------------------------------------------------------
// Executable parser and printer.

pub proof fn lemma_views_push(v: Seq<Vec<char>>, x: Vec<char>)
    ensures
        views(v.push(x)) == views(v).push(x@),
{
    assert(views(v.push(x)) =~= views(v).push(x@));
}

pub proof fn lemma_views_drop_last(v: Seq<Vec<char>>)
    requires
        v.len() > 0,
    ensures
        views(v.drop_last()) == views(v).drop_last(),
        views(v).last() == v.last()@,
{
    assert(views(v.drop_last()) =~= views(v).drop_last());
}

/// Splits a path text into its `/`-separated segments.
pub fn split_segments(s: &Vec<char>) -> (segs: Vec<Vec<char>>)
    ensures
        views(segs@) == segments(s@),
{
    let mut segs: Vec<Vec<char>> = Vec::new();
    let mut cur: Vec<char> = Vec::new();
    let mut i: usize = 0;
    while i < s.len()
        invariant
            i <= s.len(),
            (views(segs@), cur@) == split_state(s@.take(i as int)),
        decreases s.len() - i,
    {
        let c = s[i];
        assert(s@.take(i + 1).drop_last() =~= s@.take(i as int));
        assert(s@.take(i + 1).last() == c);
        if c == '/' {
            let done = cur;
            proof {
                lemma_views_push(segs@, done);
            }
            segs.push(done);
            cur = Vec::new();
            assert(cur@ =~= Seq::<char>::empty());
        } else {
            cur.push(c);
        }
        i = i + 1;
    }
    assert(s@.take(s.len() as int) =~= s@);
    proof {
        lemma_views_push(segs@, cur);
    }
    segs.push(cur);
    segs
}

/// Whether a segment yields no body component (empty or `.`).
pub fn is_skipped_exec(seg: &Vec<char>) -> (r: bool)
    ensures
        r == is_skipped(seg@),
{
    if seg.len() == 0 {
        true
    } else if seg.len() == 1 && seg[0] == '.' {
        assert(seg@ =~= cur_item());
        true
    } else {
        assert(seg@ != cur_item()) by {
            if seg@ == cur_item() {
                assert(seg@[0] == '.');
            }
        }
        false
    }
}

/// Whether a component is `..`.
pub fn is_parent_exec(item: &Vec<char>) -> (r: bool)
    ensures
        r == (item@ == parent_item()),
{
    if item.len() == 2 && item[0] == '.' && item[1] == '.' {
        assert(item@ =~= parent_item());
        true
    } else {
        assert(item@ != parent_item()) by {
            if item@ == parent_item() {
                assert(item@[0] == '.' && item@[1] == '.');
            }
        }
        false
    }
}

/// The body components of a list of segments.
pub fn items_from_segments(segs: &Vec<Vec<char>>) -> (items: Vec<Vec<char>>)
    ensures
        views(items@) == items_of(views(segs@)),
{
    let mut items: Vec<Vec<char>> = Vec::new();
    let mut i: usize = 0;
    while i < segs.len()
        invariant
            i <= segs.len(),
            views(items@) == items_of(views(segs@).take(i as int)),
        decreases segs.len() - i,
    {
        let ghost before = views(segs@).take(i as int);
        assert(views(segs@).take(i + 1).drop_last() =~= before);
        assert(views(segs@).take(i + 1).last() == segs@[i as int]@);
        if !is_skipped_exec(&segs[i]) {
            let item = clone_chars(&segs[i]);
            proof {
                lemma_views_push(items@, item);
            }
            items.push(item);
        }
        i = i + 1;
    }
    assert(views(segs@).take(segs.len() as int) =~= views(segs@));
    items
}

/// The body components of a path text.
pub fn path_body(s: &Vec<char>) -> (items: Vec<Vec<char>>)
    ensures
        views(items@) == body(s@),
{
    let segs = split_segments(s);
    items_from_segments(&segs)
}

/// Whether a path text starts at the root.
pub fn has_root_exec(s: &Vec<char>) -> (r: bool)
    ensures
        r == has_root(s@),
{
    s.len() > 0 && s[0] == '/'
}

/// The components of a path text.
pub fn path_components(s: &Vec<char>) -> (comps: Vec<Vec<char>>)
    ensures
        views(comps@) == components(s@),
{
    let body_items = path_body(s);
    let mut comps: Vec<Vec<char>> = Vec::new();
    if has_root_exec(s) {
        let mut r: Vec<char> = Vec::new();
        r.push('/');
        assert(r@ =~= root_item());
        comps.push(r);
    } else if s.len() > 0 && s[0] == '.' && (s.len() == 1 || s[1] == '/') {
        let mut r: Vec<char> = Vec::new();
        r.push('.');
        assert(r@ =~= cur_item());
        comps.push(r);
    }
    let ghost head = views(comps@);
    let mut i: usize = 0;
    while i < body_items.len()
        invariant
            i <= body_items.len(),
            views(comps@) == head + views(body_items@).take(i as int),
        decreases body_items.len() - i,
    {
        let item = clone_chars(&body_items[i]);
        proof {
            lemma_views_push(comps@, item);
            assert(views(body_items@).take(i + 1) =~= views(body_items@).take(i as int).push(item@));
            assert(head + views(body_items@).take(i + 1) =~= (head + views(body_items@).take(i as int)).push(item@));
        }
        comps.push(item);
        i = i + 1;
    }
    assert(views(body_items@).take(body_items.len() as int) =~= views(body_items@));
    proof {
        if has_root(s@) {
            assert(head =~= seq![root_item()]);
        } else if has_cur_head(s@) {
            assert(head =~= seq![cur_item()]);
        } else {
            assert(head =~= Seq::<Seq<char>>::empty());
        }
    }
    comps
}

/// Lexical normalization of a list of body components.
pub fn normalize_items(abs: bool, items: &Vec<Vec<char>>) -> (out: Vec<Vec<char>>)
    ensures
        views(out@) == norm_items(abs, views(items@)),
{
    let mut out: Vec<Vec<char>> = Vec::new();
    let mut i: usize = 0;
    while i < items.len()
        invariant
            i <= items.len(),
            views(out@) == norm_items(abs, views(items@).take(i as int)),
        decreases items.len() - i,
    {
        assert(views(items@).take(i + 1).drop_last() =~= views(items@).take(i as int));
        assert(views(items@).take(i + 1).last() == items@[i as int]@);
        if is_parent_exec(&items[i]) {
            if out.len() == 0 {
                if !abs {
                    let p = clone_chars(&items[i]);
                    proof {
                        lemma_views_push(out@, p);
                    }
                    out.push(p);
                }
            } else if is_parent_exec(&out[out.len() - 1]) {
                let p = clone_chars(&items[i]);
                proof {
                    lemma_views_push(out@, p);
                    lemma_views_drop_last(out@);
                }
                out.push(p);
            } else {
                proof {
                    lemma_views_drop_last(out@);
                }
                out.pop();
            }
        } else {
            let p = clone_chars(&items[i]);
            proof {
                lemma_views_push(out@, p);
            }
            out.push(p);
        }
        i = i + 1;
    }
    assert(views(items@).take(items.len() as int) =~= views(items@));
    out
}

/// The text of components joined with `/`.
pub fn join_items_exec(items: &Vec<Vec<char>>) -> (out: Vec<char>)
    ensures
        out@ == join_items(views(items@)),
{
    let mut out: Vec<char> = Vec::new();
    let mut i: usize = 0;
    while i < items.len()
        invariant
            i <= items.len(),
            out@ == join_items(views(items@).take(i as int)),
        decreases items.len() - i,
    {
        let ghost prev = out@;
        assert(views(items@).take(i + 1).drop_last() =~= views(items@).take(i as int));
        assert(views(items@).take(i + 1).last() == items@[i as int]@);
        if i > 0 {
            out.push('/');
            extend_chars(&mut out, &items[i]);
            assert(out@ =~= prev + seq!['/'] + items@[i as int]@);
        } else {
            extend_chars(&mut out, &items[i]);
            assert(views(items@).take(1) =~= seq![items@[0]@]);
            assert(out@ =~= items@[0]@);
        }
        i = i + 1;
    }
    assert(views(items@).take(items.len() as int) =~= views(items@));
    out
}

/// The text of a path with an optional root and the given components.
pub fn render_exec(abs: bool, items: &Vec<Vec<char>>) -> (out: Vec<char>)
    ensures
        out@ == render(abs, views(items@)),
{
    let joined = join_items_exec(items);
    if abs {
        let mut out: Vec<char> = Vec::new();
        out.push('/');
        extend_chars(&mut out, &joined);
        assert(out@ =~= seq!['/'] + joined@);
        out
    } else if items.len() == 0 {
        let mut out: Vec<char> = Vec::new();
        out.push('.');
        assert(out@ =~= cur_item());
        out
    } else {
        joined
    }
}

/// Whether a text contains a NUL character.
pub fn has_nul_exec(s: &Vec<char>) -> (r: bool)
    ensures
        r == has_nul(s@),
{
    crate::chars::contains_char(s, '\0')
}

/// The text of `child` joined onto `base`.
pub fn join_path_exec(base: &Vec<char>, child: &Vec<char>) -> (out: Vec<char>)
    ensures
        out@ == join_path(base@, child@),
{
    if has_root_exec(child) || base.len() == 0 {
        clone_chars(child)
    } else if base[base.len() - 1] == '/' {
        let mut out = clone_chars(base);
        extend_chars(&mut out, child);
        out
    } else {
        let mut out = clone_chars(base);
        out.push('/');
        let ghost mid = out@;
        extend_chars(&mut out, child);
        assert(out@ =~= base@ + seq!['/'] + child@);
        out
    }
}

/// Whether the components `prefix` start the components `full`.
pub fn components_prefix(prefix: &Vec<Vec<char>>, full: &Vec<Vec<char>>) -> (r: bool)
    ensures
        r == views(prefix@).is_prefix_of(views(full@)),
{
    if prefix.len() > full.len() {
        return false;
    }
    let mut i: usize = 0;
    while i < prefix.len()
        invariant
            prefix.len() <= full.len(),
            i <= prefix.len(),
            forall|j: int| 0 <= j < i ==> views(prefix@)[j] == views(full@)[j],
        decreases prefix.len() - i,
    {
        if !chars_eq(&prefix[i], &full[i]) {
            assert(views(prefix@)[i as int] != views(full@)[i as int]);
            return false;
        }
        i = i + 1;
    }
    true
}

} // verus!
