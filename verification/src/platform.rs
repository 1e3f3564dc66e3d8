//! Platform path classification and Windows-related helpers.
//!
//! Paths are read with the host's (Unix) path syntax, which has no prefix
//! component: drive letters, UNC shares and verbatim or device prefixes are
//! ordinary names there. The helpers inspect path text only and never touch
//! the filesystem.

use vstd::prelude::*;
use crate::chars::{
    ascii_upper, ascii_upper_exec, ascii_upper_seq, ascii_upper_vec, chars_of, clone_chars, extend_chars,
    skip_chars, string_from_chars, starts_with_exec, trim, trim_exec,
};
use crate::error::{PathError, PathErrorSpec};
use crate::lexical::{
    body, is_parent_exec, is_skipped, is_skipped_exec, parent_item, path_body, segments,
    split_segments, lemma_views_push, lemma_views_drop_last,
};
use crate::chars::views;

verus! {

/// Whether `path` is a Windows drive-relative path such as `C:foo` or `C:`.
///
/// Under the host's Unix path syntax there is no drive prefix, so no path is
/// drive-relative.
pub fn is_drive_relative(path: &str) -> (r: bool)
    ensures
        !r,
{
    false
}

/// Whether `path` uses a UNC prefix (`\\server\share` or verbatim UNC).
///
/// Under the host's Unix path syntax there is no prefix component.
pub fn is_unc(path: &str) -> (r: bool)
    ensures
        !r,
{
    false
}

/// Whether `path` uses a Windows verbatim prefix (`\\?\...`).
///
/// Under the host's Unix path syntax there is no prefix component.
pub fn is_verbatim(path: &str) -> (r: bool)
    ensures
        !r,
{
    false
}

/// Whether `path` uses a device namespace prefix (`\\.\...`).
///
/// Under the host's Unix path syntax there is no prefix component.
pub fn is_device_namespace(path: &str) -> (r: bool)
    ensures
        !r,
{
    false
}

/// Length of the part of a name before the first `.` or space.
pub open spec fn base_len(s: Seq<char>) -> nat
    decreases s.len(),
{
    if s.len() == 0 || s[0] == '.' || s[0] == ' ' {
        0
    } else {
        1 + base_len(s.drop_first())
    }
}

/// The part of a name before its first `.` or space.
pub open spec fn base_name(s: Seq<char>) -> Seq<char> {
    s.take(base_len(s) as int)
}

/// The Windows reserved device tokens: `CON`, `PRN`, `AUX`, `NUL`, `CLOCK$`,
/// `COM1`–`COM9` and `LPT1`–`LPT9`.
pub open spec fn is_reserved_token(u: Seq<char>) -> bool {
    ||| u == seq!['C', 'O', 'N']
    ||| u == seq!['P', 'R', 'N']
    ||| u == seq!['A', 'U', 'X']
    ||| u == seq!['N', 'U', 'L']
    ||| u == seq!['C', 'L', 'O', 'C', 'K', '$']
    ||| (u.len() == 4 && u[0] == 'C' && u[1] == 'O' && u[2] == 'M' && '1' <= u[3] && u[3] <= '9')
    ||| (u.len() == 4 && u[0] == 'L' && u[1] == 'P' && u[2] == 'T' && '1' <= u[3] && u[3] <= '9')
}

/// Whether a name is a Windows reserved device name, optionally with an extension.
pub open spec fn is_reserved_name(name: Seq<char>) -> bool {
    is_reserved_token(ascii_upper_seq(base_name(name)))
}

proof fn lemma_base_len(s: Seq<char>, k: int)
    requires
        0 <= k <= s.len(),
        forall|j: int| 0 <= j < k ==> s[j] != '.' && s[j] != ' ',
        k < s.len() ==> (s[k] == '.' || s[k] == ' '),
    ensures
        base_len(s) == k,
    decreases s.len(),
{
    if k > 0 {
        assert forall|j: int| 0 <= j < k - 1 implies s.drop_first()[j] != '.' && s.drop_first()[j] != ' ' by {
            assert(s.drop_first()[j] == s[j + 1]);
        }
        if k - 1 < s.drop_first().len() {
            assert(s.drop_first()[k - 1] == s[k]);
        }
        lemma_base_len(s.drop_first(), k - 1);
    }
}

fn is_reserved_token_exec(u: &Vec<char>) -> (r: bool)
    ensures
        r == is_reserved_token(u@),
{
    let n = u.len();
    if n == 3 {
        let r = (u[0] == 'C' && u[1] == 'O' && u[2] == 'N') || (u[0] == 'P' && u[1] == 'R' && u[2] == 'N')
            || (u[0] == 'A' && u[1] == 'U' && u[2] == 'X') || (u[0] == 'N' && u[1] == 'U' && u[2] == 'L');
        proof {
            if u@ == seq!['C', 'O', 'N'] || u@ == seq!['P', 'R', 'N'] || u@ == seq!['A', 'U', 'X'] || u@ == seq!['N', 'U', 'L'] {
            }
            if u[0] == 'C' && u[1] == 'O' && u[2] == 'N' {
                assert(u@ =~= seq!['C', 'O', 'N']);
            }
            if u[0] == 'P' && u[1] == 'R' && u[2] == 'N' {
                assert(u@ =~= seq!['P', 'R', 'N']);
            }
            if u[0] == 'A' && u[1] == 'U' && u[2] == 'X' {
                assert(u@ =~= seq!['A', 'U', 'X']);
            }
            if u[0] == 'N' && u[1] == 'U' && u[2] == 'L' {
                assert(u@ =~= seq!['N', 'U', 'L']);
            }
        }
        r
    } else if n == 4 {
        let d = u[3];
        ((u[0] == 'C' && u[1] == 'O' && u[2] == 'M') || (u[0] == 'L' && u[1] == 'P' && u[2] == 'T'))
            && '1' <= d && d <= '9'
    } else if n == 6 {
        let r = u[0] == 'C' && u[1] == 'L' && u[2] == 'O' && u[3] == 'C' && u[4] == 'K' && u[5] == '$';
        proof {
            if r {
                assert(u@ =~= seq!['C', 'L', 'O', 'C', 'K', '$']);
            }
        }
        r
    } else {
        false
    }
}

fn is_reserved_name_chars(name: &Vec<char>) -> (r: bool)
    ensures
        r == is_reserved_name(name@),
{
    let mut k: usize = 0;
    while k < name.len() && name[k] != '.' && name[k] != ' '
        invariant
            k <= name.len(),
            forall|j: int| 0 <= j < k ==> name@[j] != '.' && name@[j] != ' ',
        decreases name.len() - k,
    {
        k = k + 1;
    }
    proof {
        lemma_base_len(name@, k as int);
    }
    let base = crate::chars::sub_chars(name, 0, k);
    assert(base@ =~= base_name(name@));
    let upper = ascii_upper_vec(&base);
    is_reserved_token_exec(&upper)
}

/// Returns `true` if `name` is a Windows reserved device name (optionally with extension).
///
/// Examples: `CON`, `NUL.txt`, `COM1.log`.
pub fn is_reserved_windows_name(name: &str) -> (r: bool)
    ensures
        r == is_reserved_name(name@),
{
    let n = chars_of(name);
    is_reserved_name_chars(&n)
}

/// Whether some name component of `path` is a Windows reserved name.
pub open spec fn contains_reserved(path: Seq<char>) -> bool {
    exists|i: int| 0 <= i < body(path).len() && body(path)[i] != parent_item() && is_reserved_name(#[trigger] body(path)[i])
}

/// Returns `true` if any normal component of `path` is a Windows reserved name.
pub fn path_contains_reserved_name(path: &str) -> (r: bool)
    ensures
        r == contains_reserved(path@),
{
    let p = chars_of(path);
    let items = path_body(&p);
    let mut i: usize = 0;
    while i < items.len()
        invariant
            i <= items.len(),
            views(items@) == body(path@),
            forall|j: int| 0 <= j < i ==> !(body(path@)[j] != parent_item() && is_reserved_name(#[trigger] body(path@)[j])),
        decreases items.len() - i,
    {
        if !is_parent_exec(&items[i]) && is_reserved_name_chars(&items[i]) {
            assert(body(path@)[i as int] == items@[i as int]@);
            return true;
        }
        assert(body(path@)[i as int] == items@[i as int]@);
        i = i + 1;
    }
    false
}

/// Components joined with `sep`.
pub open spec fn join_with(items: Seq<Seq<char>>, sep: char) -> Seq<char>
    decreases items.len(),
{
    if items.len() == 0 {
        Seq::empty()
    } else if items.len() == 1 {
        items[0]
    } else {
        join_with(items.drop_last(), sep) + seq![sep] + items.last()
    }
}

/// Folding the tail segments of a WSL mount path onto the drive root:
/// empty and `.` segments are skipped, `..` removes the previous name, and
/// `None` means a `..` would leave the drive root.
pub open spec fn wsl_fold(segs: Seq<Seq<char>>) -> Option<Seq<Seq<char>>>
    decreases segs.len(),
{
    if segs.len() == 0 {
        Some(Seq::empty())
    } else {
        match wsl_fold(segs.drop_last()) {
            None => None,
            Some(acc) => {
                let seg = segs.last();
                if is_skipped(seg) {
                    Some(acc)
                } else if seg == parent_item() {
                    if acc.len() == 0 {
                        None
                    } else {
                        Some(acc.drop_last())
                    }
                } else {
                    Some(acc.push(seg))
                }
            },
        }
    }
}

/// The mount prefix `/mnt/`.
pub open spec fn mnt_prefix() -> Seq<char> {
    seq!['/', 'm', 'n', 't', '/']
}

/// Whether `c` is an ASCII letter.
pub open spec fn is_ascii_alpha(c: char) -> bool {
    ('a' <= c && c <= 'z') || ('A' <= c && c <= 'Z')
}

/// The Windows path for a drive letter and path components under its root.
pub open spec fn wsl_render(letter: char, items: Seq<Seq<char>>) -> Seq<char> {
    seq![ascii_upper(letter), ':', '\\'] + join_with(items, '\\')
}

/// What [`translate_wsl_path`] returns for `input`.
pub open spec fn translate_wsl_spec(input: Seq<char>) -> Result<Option<Seq<char>>, PathErrorSpec> {
    let t = trim(input);
    if !mnt_prefix().is_prefix_of(t) {
        Ok(None)
    } else {
        let rest = t.skip(5);
        if rest.len() == 0 {
            Err(PathErrorSpec::InvalidPath("WSL path '/mnt/' is incomplete; expected /mnt/<drive>/..."@))
        } else if rest[0] == '/' {
            Err(PathErrorSpec::InvalidPath("WSL path is missing a drive letter"@))
        } else if !(rest.len() == 1 || rest[1] == '/') || !is_ascii_alpha(rest[0]) {
            Ok(None)
        } else {
            let tail = if rest.len() == 1 { Seq::<char>::empty() } else { rest.skip(2) };
            match wsl_fold(segments(tail)) {
                None => Err(PathErrorSpec::InvalidPath("WSL path escapes the drive root via '..'"@)),
                Some(items) => Ok(Some(wsl_render(rest[0], items))),
            }
        }
    }
}

/// The view of a result that carries an optional text.
pub open spec fn opt_text_result(r: Result<Option<String>, PathError>) -> Result<Option<Seq<char>>, PathErrorSpec> {
    match r {
        Ok(Some(s)) => Ok(Some(s@)),
        Ok(None) => Ok(None),
        Err(e) => Err(e@),
    }
}

/// Once a `..` has left the drive root, longer segment lists fail too.
proof fn lemma_wsl_fold_none_extends(segs: Seq<Seq<char>>, k: int)
    requires
        0 <= k <= segs.len(),
        wsl_fold(segs.take(k)) is None,
    ensures
        wsl_fold(segs.take(segs.len() as int)) is None,
    decreases segs.len() - k,
{
    if k < segs.len() {
        assert(segs.take(k + 1).drop_last() =~= segs.take(k));
        lemma_wsl_fold_none_extends(segs, k + 1);
    }
}

fn join_with_exec(items: &Vec<Vec<char>>, sep: char) -> (out: Vec<char>)
    ensures
        out@ == join_with(views(items@), sep),
{
    let mut out: Vec<char> = Vec::new();
    let mut i: usize = 0;
    while i < items.len()
        invariant
            i <= items.len(),
            out@ == join_with(views(items@).take(i as int), sep),
        decreases items.len() - i,
    {
        let ghost prev = out@;
        assert(views(items@).take(i + 1).drop_last() =~= views(items@).take(i as int));
        assert(views(items@).take(i + 1).last() == items@[i as int]@);
        if i > 0 {
            out.push(sep);
            extend_chars(&mut out, &items[i]);
            assert(out@ =~= prev + seq![sep] + items@[i as int]@);
        } else {
            extend_chars(&mut out, &items[i]);
            assert(views(items@).take(1) =~= seq![items@[0]@]);
            assert(out@ =~= items@[0]@);
        }
        i = i + 1;
    }
    assert(views(items@).take(items.len() as int) =~= views(items@));
    out
}

/// Translate a WSL-style `/mnt/<drive>/...` path to a Windows path.
///
/// Only single-letter drive mounts are recognized (`/mnt/c/...`); the drive
/// letter is upper-cased and the components are joined with `\`.
/// Returns `Ok(None)` when the input is not a WSL mount path.
#[verifier::loop_isolation(false)]
pub fn translate_wsl_path(input: &str) -> (r: Result<Option<String>, PathError>)
    ensures
        opt_text_result(r) == translate_wsl_spec(input@),
{
    let raw = chars_of(input);
    let t = trim_exec(&raw);
    let mut prefix: Vec<char> = Vec::new();
    prefix.push('/');
    prefix.push('m');
    prefix.push('n');
    prefix.push('t');
    prefix.push('/');
    assert(prefix@ =~= mnt_prefix());
    if !starts_with_exec(&t, &prefix) {
        return Ok(None);
    }
    let rest = skip_chars(&t, 5);
    if rest.len() == 0 {
        return Err(PathError::invalid("WSL path '/mnt/' is incomplete; expected /mnt/<drive>/..."));
    }
    if rest[0] == '/' {
        return Err(PathError::invalid("WSL path is missing a drive letter"));
    }
    let letter = rest[0];
    if !(rest.len() == 1 || rest[1] == '/') || !(('a' <= letter && letter <= 'z') || ('A' <= letter && letter <= 'Z')) {
        return Ok(None);
    }
    let tail = if rest.len() == 1 { Vec::new() } else { skip_chars(&rest, 2) };
    assert(tail@ == (if rest@.len() == 1 { Seq::<char>::empty() } else { rest@.skip(2) }));
    let segs = split_segments(&tail);
    let mut acc: Vec<Vec<char>> = Vec::new();
    let mut i: usize = 0;
    while i < segs.len()
        invariant
            i <= segs.len(),
            views(segs@) == segments(tail@),
            wsl_fold(views(segs@).take(i as int)) == Some(views(acc@)),
        decreases segs.len() - i,
    {
        assert(views(segs@).take(i + 1).drop_last() =~= views(segs@).take(i as int));
        assert(views(segs@).take(i + 1).last() == segs@[i as int]@);
        if is_skipped_exec(&segs[i]) {
        } else if is_parent_exec(&segs[i]) {
            if acc.len() == 0 {
                proof {
                    assert(wsl_fold(views(segs@).take(i + 1)) is None);
                    lemma_wsl_fold_none_extends(views(segs@), i as int + 1);
                    assert(views(segs@).take(segs.len() as int) =~= views(segs@));
                    assert(wsl_fold(segments(tail@)) is None);
                }
                return Err(PathError::invalid("WSL path escapes the drive root via '..'"));
            }
            proof {
                lemma_views_drop_last(acc@);
            }
            acc.pop();
        } else {
            let item = clone_chars(&segs[i]);
            proof {
                lemma_views_push(acc@, item);
            }
            acc.push(item);
        }
        i = i + 1;
    }
    assert(views(segs@).take(segs.len() as int) =~= views(segs@));
    let mut out: Vec<char> = Vec::new();
    out.push(ascii_upper_exec(letter));
    out.push(':');
    out.push('\\');
    let joined = join_with_exec(&acc, '\\');
    let ghost head = out@;
    extend_chars(&mut out, &joined);
    assert(head =~= seq![ascii_upper(letter), ':', '\\']);
    assert(out@ =~= wsl_render(rest@[0], views(acc@)));
    Ok(Some(string_from_chars(out)))
}

/// Soften a Windows path for display (may strip `\\?\` when safe).
///
/// Calls `dunce::simplified`. Its source only strips a prefix on Windows
/// targets; on the host (non-Windows) it hands its argument back unchanged,
/// which is what the contract states. The contract is not true of a Windows
/// target, which this library does not support.
#[verifier::external_body]
pub fn simplify_for_display(path: &str) -> (r: String)
    ensures
        r@ == path@,
{
    dunce::simplified(std::path::Path::new(path)).to_string_lossy().into_owned()
}

proof fn lemma_wsl_fold_same_prefix(p1: Seq<Seq<char>>, p2: Seq<Seq<char>>, q: Seq<Seq<char>>)
    requires
        wsl_fold(p1) == wsl_fold(p2),
    ensures
        wsl_fold(p1 + q) == wsl_fold(p2 + q),
    decreases q.len(),
{
    if q.len() == 0 {
        assert(p1 + q =~= p1);
        assert(p2 + q =~= p2);
    } else {
        lemma_wsl_fold_same_prefix(p1, p2, q.drop_last());
        assert((p1 + q).drop_last() =~= p1 + q.drop_last());
        assert((p2 + q).drop_last() =~= p2 + q.drop_last());
        assert((p1 + q).last() == q.last());
        assert((p2 + q).last() == q.last());
    }
}

proof fn lemma_wsl_fold_name_then_parent(pre: Seq<Seq<char>>, a: Seq<char>)
    requires
        a.len() > 0,
        a != seq!['.'],
        a != parent_item(),
    ensures
        wsl_fold(pre + seq![a, parent_item()]) == wsl_fold(pre),
{
    let s = pre + seq![a, parent_item()];
    assert(s.drop_last() =~= pre.push(a));
    assert(s.last() == parent_item());
    assert(pre.push(a).drop_last() =~= pre);
    assert(pre.push(a).last() == a);
    assert(!is_skipped(a));
    match wsl_fold(pre) {
        None => {},
        Some(acc) => {
            assert(wsl_fold(pre.push(a)) == Some(acc.push(a)));
            assert(acc.push(a).drop_last() =~= acc);
        },
    }
}

proof fn lemma_single_segment(a: Seq<char>)
    requires
        !a.contains('/'),
    ensures
        segments(a) == seq![a],
{
    crate::lexical::lemma_split_state_plain(a);
    assert(Seq::<Seq<char>>::empty().push(a) =~= seq![a]);
}

proof fn lemma_trim_identity(s: Seq<char>)
    requires
        s.len() > 0,
        !crate::chars::is_ws(s[0]),
        !crate::chars::is_ws(s.last()),
    ensures
        trim(s) == s,
{
    assert(crate::chars::lead_ws(s) == 0);
    assert(s.skip(0) =~= s);
}

/// What translating `/mnt/<d>/<t>` gives, in terms of the segments of `t`.
proof fn lemma_wsl_translate_shape(d: char, t: Seq<char>)
    requires
        is_ascii_alpha(d),
        t.len() > 0 ==> !crate::chars::is_ws(t.last()),
    ensures
        translate_wsl_spec(mnt_prefix() + seq![d, '/'] + t) == match wsl_fold(segments(t)) {
            None => Err(PathErrorSpec::InvalidPath("WSL path escapes the drive root via '..'"@)),
            Some(items) => Ok(Some(wsl_render(d, items))),
        },
{
    let s = mnt_prefix() + seq![d, '/'] + t;
    assert(s[0] == '/');
    if t.len() > 0 {
        assert(s.last() == t.last());
    } else {
        assert(s.last() == '/');
    }
    lemma_trim_identity(s);
    assert(s.take(5) =~= mnt_prefix());
    let r = s.skip(5);
    assert(r =~= seq![d, '/'] + t);
    assert(r[0] == d && r[1] == '/');
    assert(r.skip(2) =~= t);
}

proof fn lemma_wsl_tail_segments(x: Seq<char>, a: Seq<char>, y: Seq<char>)
    requires
        !a.contains('/'),
    ensures
        segments(x + seq!['/'] + a + seq!['/', '.', '.', '/'] + y) == (segments(x) + seq![a, parent_item()]) + segments(y),
        segments(x + seq!['/'] + y) == segments(x) + segments(y),
{
    let pp = parent_item();
    assert(x + seq!['/'] + a + seq!['/', '.', '.', '/'] + y =~= x + seq!['/'] + (a + seq!['/'] + (pp + seq!['/'] + y)));
    crate::lexical::lemma_segments_concat(x, a + seq!['/'] + (pp + seq!['/'] + y));
    crate::lexical::lemma_segments_concat(a, pp + seq!['/'] + y);
    crate::lexical::lemma_segments_concat(pp, y);
    lemma_single_segment(a);
    assert(!pp.contains('/')) by {
        if pp.contains('/') {
            let k = choose|k: int| 0 <= k < pp.len() && pp[k] == '/';
        }
    }
    lemma_single_segment(pp);
    crate::lexical::lemma_segments_concat(x, y);
    assert(segments(x) + (seq![a] + (seq![pp] + segments(y))) =~= (segments(x) + seq![a, pp]) + segments(y));
}

/// In a WSL path, a `..` segment cancels the name before it: translating
/// `/mnt/<d>/<x>/<a>/../<y>` gives what translating `/mnt/<d>/<x>/<y>` gives,
/// for every name `a` (not empty, `.` or `..`, without `/`), whatever `x` and
/// `y` are (an empty `x` leaves an empty segment, which is dropped).
pub proof fn lemma_wsl_parent_cancels_name(d: char, x: Seq<char>, a: Seq<char>, y: Seq<char>)
    requires
        is_ascii_alpha(d),
        a.len() > 0,
        !a.contains('/'),
        a != seq!['.'],
        a != parent_item(),
        y.len() > 0 ==> !crate::chars::is_ws(y.last()),
    ensures
        translate_wsl_spec(mnt_prefix() + seq![d, '/'] + x + seq!['/'] + a + seq!['/', '.', '.', '/'] + y)
            == translate_wsl_spec(mnt_prefix() + seq![d, '/'] + x + seq!['/'] + y),
{
    let t1 = x + seq!['/'] + a + seq!['/', '.', '.', '/'] + y;
    let t2 = x + seq!['/'] + y;
    assert(mnt_prefix() + seq![d, '/'] + x + seq!['/'] + a + seq!['/', '.', '.', '/'] + y =~= mnt_prefix() + seq![d, '/'] + t1);
    assert(mnt_prefix() + seq![d, '/'] + x + seq!['/'] + y =~= mnt_prefix() + seq![d, '/'] + t2);
    if y.len() > 0 {
        assert(t1.last() == y.last());
        assert(t2.last() == y.last());
    } else {
        assert(t1.last() == '/');
        assert(t2.last() == '/');
    }
    lemma_wsl_translate_shape(d, t1);
    lemma_wsl_translate_shape(d, t2);
    lemma_wsl_tail_segments(x, a, y);
    lemma_wsl_fold_name_then_parent(segments(x), a);
    lemma_wsl_fold_same_prefix(segments(x) + seq![a, parent_item()], segments(x), segments(y));
}

} // verus!
