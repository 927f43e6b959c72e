//! A model of slash-separated paths and the operations the batch logic performs on them.
//!
//! A path is a sequence of characters; `/` separates its pieces. Trailing separators are
//! ignored, as are empty pieces and `.` pieces when paths are compared component-wise.
//! `file_name`, `extension`, `file_stem`, `join` and `set_extension` follow the behaviour of
//! `std::path` on Unix for paths whose last piece is not `.`.
use vstd::prelude::*;
use crate::text::{extend_chars, starts_with_char};

verus! {

// ---------------------------------------------------------------------------------------------
// Specification
// ---------------------------------------------------------------------------------------------

/// The path starts at the root.
pub open spec fn is_absolute(p: Seq<char>) -> bool {
    p.len() > 0 && p[0] == '/'
}

/// `p` without its trailing separators.
pub open spec fn trim_end_seps(p: Seq<char>) -> Seq<char>
    decreases p.len(),
{
    if p.len() > 0 && p.last() == '/' {
        trim_end_seps(p.drop_last())
    } else {
        p
    }
}

/// Index just past the last separator of `t` (0 when it has none).
pub open spec fn name_start(t: Seq<char>) -> int
    decreases t.len(),
{
    if t.len() == 0 {
        0
    } else if t.last() == '/' {
        t.len() as int
    } else {
        name_start(t.drop_last())
    }
}

/// The last piece of `p`, after trailing separators are dropped.
pub open spec fn last_piece(p: Seq<char>) -> Seq<char> {
    let t = trim_end_seps(p);
    t.subrange(name_start(t), t.len() as int)
}

/// The final component of `p`, unless it is empty, `.` or `..` (`Path::file_name`).
pub open spec fn file_name(p: Seq<char>) -> Option<Seq<char>> {
    let n = last_piece(p);
    if n.len() == 0 || n == seq!['.'] || n == seq!['.', '.'] {
        None
    } else {
        Some(n)
    }
}

/// Index of the last `.` of `n`, or -1.
pub open spec fn last_dot(n: Seq<char>) -> int
    decreases n.len(),
{
    if n.len() == 0 {
        -1
    } else if n.last() == '.' {
        n.len() - 1
    } else {
        last_dot(n.drop_last())
    }
}

/// The extension of a file name: the text after its last `.`, unless that dot starts the name.
pub open spec fn name_extension(n: Seq<char>) -> Option<Seq<char>> {
    let d = last_dot(n);
    if d <= 0 {
        None
    } else {
        Some(n.subrange(d + 1, n.len() as int))
    }
}

/// The stem of a file name: the text before its last `.`, or the whole name.
pub open spec fn name_stem(n: Seq<char>) -> Seq<char> {
    let d = last_dot(n);
    if d <= 0 {
        n
    } else {
        n.subrange(0, d)
    }
}

/// `Path::extension`.
pub open spec fn extension(p: Seq<char>) -> Option<Seq<char>> {
    match file_name(p) {
        Some(n) => name_extension(n),
        None => None,
    }
}

/// `Path::file_stem`.
pub open spec fn file_stem(p: Seq<char>) -> Option<Seq<char>> {
    match file_name(p) {
        Some(n) => Some(name_stem(n)),
        None => None,
    }
}

/// `base.join(rel)`: `rel` itself when it is absolute, else `rel` appended after a separator.
pub open spec fn join(base: Seq<char>, rel: Seq<char>) -> Seq<char> {
    if is_absolute(rel) {
        rel
    } else if base.len() == 0 || base.last() == '/' {
        base + rel
    } else {
        base + seq!['/'] + rel
    }
}

/// `PathBuf::set_extension`: the path cut after its file stem, then `.ext` when `ext` is
/// non-empty; unchanged when the path has no file name.
pub open spec fn set_extension(p: Seq<char>, ext: Seq<char>) -> Seq<char> {
    match file_name(p) {
        None => p,
        Some(n) => {
            let t = trim_end_seps(p);
            let cut = t.take(name_start(t) + name_stem(n).len());
            if ext.len() > 0 {
                cut + seq!['.'] + ext
            } else {
                cut
            }
        },
    }
}

/// `Path::parent`: everything before the last piece, without trailing separators; the root
/// for a piece directly under it; `None` for the empty path and the root itself.
pub open spec fn parent(p: Seq<char>) -> Option<Seq<char>> {
    let t = trim_end_seps(p);
    let k = name_start(t);
    if t.len() == 0 {
        None
    } else if k == 0 {
        Some(Seq::<char>::empty())
    } else if trim_end_seps(t.take(k)).len() == 0 {
        Some(seq!['/'])
    } else {
        Some(trim_end_seps(t.take(k)))
    }
}

/// Index of the first separator of `p`, or its length.
pub open spec fn first_sep(p: Seq<char>) -> int
    decreases p.len(),
{
    if p.len() == 0 {
        0
    } else if p[0] == '/' {
        0
    } else {
        1 + first_sep(p.drop_first())
    }
}

/// The pieces of `p` between separators, without empty and `.` pieces.
pub open spec fn segments(p: Seq<char>) -> Seq<Seq<char>>
    decreases p.len(),
{
    if p.len() == 0 {
        Seq::empty()
    } else if p[0] == '/' {
        segments(p.drop_first())
    } else {
        let k = first_sep(p);
        if 0 < k <= p.len() {
            let rest = segments(p.skip(k));
            if p.take(k) == seq!['.'] {
                rest
            } else {
                seq![p.take(k)] + rest
            }
        } else {
            Seq::empty()
        }
    }
}

/// Component-wise equality of two paths (`Path == Path`).
pub open spec fn same_path(a: Seq<char>, b: Seq<char>) -> bool {
    is_absolute(a) == is_absolute(b) && segments(a) == segments(b)
}

/// `Path::starts_with`: `base`'s components are a prefix of `p`'s.
pub open spec fn path_starts_with(p: Seq<char>, base: Seq<char>) -> bool {
    is_absolute(p) == is_absolute(base) && segments(base).len() <= segments(p).len()
        && segments(p).take(segments(base).len() as int) == segments(base)
}

/// Pieces joined with single separators.
pub open spec fn join_segments(s: Seq<Seq<char>>) -> Seq<char>
    decreases s.len(),
{
    if s.len() == 0 {
        Seq::empty()
    } else if s.len() == 1 {
        s[0]
    } else {
        join_segments(s.drop_last()) + seq!['/'] + s.last()
    }
}

/// `Path::strip_prefix`: the components of `p` after those of `base`.
pub open spec fn strip_prefix(p: Seq<char>, base: Seq<char>) -> Option<Seq<char>> {
    if path_starts_with(p, base) {
        Some(join_segments(segments(p).skip(segments(base).len() as int)))
    } else {
        None
    }
}

/// A name that starts with a dot.
pub open spec fn is_hidden(name: Seq<char>) -> bool {
    starts_with_char(name, '.')
}

/// Some component of `p` is hidden.
pub open spec fn has_hidden_segment(p: Seq<char>) -> bool {
    exists|i: int| 0 <= i < segments(p).len() && is_hidden(#[trigger] segments(p)[i])
}

/// The views of a sequence of character vectors.
pub open spec fn views(v: Seq<Vec<char>>) -> Seq<Seq<char>> {
    v.map_values(|x: Vec<char>| x@)
}

// ---------------------------------------------------------------------------------------------
// Lemmas
// ---------------------------------------------------------------------------------------------

proof fn lemma_trim(p: Seq<char>)
    ensures
        trim_end_seps(p).len() <= p.len(),
        trim_end_seps(p) == p.take(trim_end_seps(p).len() as int),
        trim_end_seps(p).len() == 0 || trim_end_seps(p).last() != '/',
        forall|i: int| trim_end_seps(p).len() <= i < p.len() ==> p[i] == '/',
    decreases p.len(),
{
    if p.len() > 0 && p.last() == '/' {
        let d = p.drop_last();
        lemma_trim(d);
        let l = trim_end_seps(d).len() as int;
        assert(trim_end_seps(p) == trim_end_seps(d));
        assert(d.take(l) =~= p.take(l));
        assert forall|i: int| l <= i < p.len() implies p[i] == '/' by {
            if i < d.len() {
                assert(d[i] == p[i]);
            }
        }
    } else {
        assert(p.take(p.len() as int) =~= p);
    }
}

proof fn lemma_name_start(t: Seq<char>)
    ensures
        0 <= name_start(t) <= t.len(),
        name_start(t) > 0 ==> t[name_start(t) - 1] == '/',
        forall|i: int| name_start(t) <= i < t.len() ==> t[i] != '/',
        t.len() > 0 && t.last() != '/' ==> name_start(t) < t.len(),
    decreases t.len(),
{
    if t.len() > 0 && t.last() != '/' {
        let d = t.drop_last();
        lemma_name_start(d);
        assert(name_start(t) == name_start(d));
        assert forall|i: int| name_start(t) <= i < t.len() implies t[i] != '/' by {
            if i < d.len() {
                assert(d[i] == t[i]);
            }
        }
        if name_start(t) > 0 {
            assert(d[name_start(t) - 1] == t[name_start(t) - 1]);
        }
    }
}

proof fn lemma_last_dot(n: Seq<char>)
    ensures
        -1 <= last_dot(n) < n.len(),
        last_dot(n) >= 0 ==> n[last_dot(n)] == '.',
        forall|i: int| last_dot(n) < i < n.len() ==> n[i] != '.',
    decreases n.len(),
{
    if n.len() > 0 && n.last() != '.' {
        let d = n.drop_last();
        lemma_last_dot(d);
        assert forall|i: int| last_dot(n) < i < n.len() implies n[i] != '.' by {
            if i < d.len() {
                assert(d[i] == n[i]);
            }
        }
        if last_dot(n) >= 0 {
            assert(d[last_dot(n)] == n[last_dot(n)]);
        }
    }
}

proof fn lemma_first_sep(q: Seq<char>, k: int)
    requires
        0 <= k <= q.len(),
        forall|m: int| 0 <= m < k ==> q[m] != '/',
        k == q.len() || q[k] == '/',
    ensures
        first_sep(q) == k,
    decreases k,
{
    if k > 0 {
        lemma_first_sep(q.drop_first(), k - 1);
    }
}

proof fn lemma_join_segments_step(s: Seq<Seq<char>>, i: int)
    requires
        1 <= i < s.len(),
    ensures
        join_segments(s.take(i + 1)) == join_segments(s.take(i)) + seq!['/'] + s[i],
{
    assert(s.take(i + 1).drop_last() == s.take(i));
}

/// No separator occurs in `w`.
pub open spec fn no_sep(w: Seq<char>) -> bool {
    forall|i: int| 0 <= i < w.len() ==> w[i] != '/'
}

/// Concatenating separator-free pieces gives a separator-free piece.
pub proof fn lemma_no_sep_concat(a: Seq<char>, b: Seq<char>)
    requires
        no_sep(a),
        no_sep(b),
    ensures
        no_sep(a + b),
{
    assert forall|i: int| 0 <= i < (a + b).len() implies (a + b)[i] != '/' by {
        if i < a.len() {
            assert((a + b)[i] == a[i]);
        } else {
            assert((a + b)[i] == b[i - a.len()]);
        }
    }
}

proof fn lemma_name_start_append(x: Seq<char>, w: Seq<char>)
    requires
        x.len() == 0 || x.last() == '/',
        no_sep(w),
    ensures
        name_start(x + w) == x.len(),
    decreases w.len(),
{
    if w.len() == 0 {
        assert(x + w =~= x);
    } else {
        assert((x + w).drop_last() =~= x + w.drop_last());
        lemma_name_start_append(x, w.drop_last());
    }
}

/// Joining a plain name (no separator, not `.` or `..`) to any path gives a path whose file
/// name is that name.
pub proof fn lemma_file_name_of_join(base: Seq<char>, name: Seq<char>)
    requires
        name.len() > 0,
        no_sep(name),
        name != seq!['.'],
        name != seq!['.', '.'],
    ensures
        file_name(join(base, name)) == Some(name),
{
    let p = join(base, name);
    let x = if base.len() == 0 || base.last() == '/' {
        base
    } else {
        base + seq!['/']
    };
    assert(name[0] != '/');
    assert(p =~= x + name);
    assert(p.last() == name.last());
    assert(trim_end_seps(p) == p);
    lemma_name_start_append(x, name);
    assert(p.subrange(x.len() as int, p.len() as int) =~= name);
}

/// A file name holds no separator, and neither do its stem and extension; the extension holds
/// no dot.
pub proof fn lemma_file_name_parts(p: Seq<char>)
    ensures
        file_name(p) matches Some(n) ==> no_sep(n) && no_sep(name_stem(n)) && (name_extension(
            n,
        ) matches Some(e) ==> no_sep(e) && forall|i: int| 0 <= i < e.len() ==> e[i] != '.'),
{
    let t = trim_end_seps(p);
    lemma_name_start(t);
    let n = last_piece(p);
    assert forall|i: int| 0 <= i < n.len() implies n[i] != '/' by {
        assert(n[i] == t[name_start(t) + i]);
    }
    lemma_last_dot(n);
    let d = last_dot(n);
    if d > 0 {
        let e = n.subrange(d + 1, n.len() as int);
        assert forall|i: int| 0 <= i < e.len() implies e[i] != '/' && e[i] != '.' by {
            assert(e[i] == n[d + 1 + i]);
        }
        let st = n.subrange(0, d);
        assert forall|i: int| 0 <= i < st.len() implies st[i] != '/' by {
            assert(st[i] == n[i]);
        }
    }
}

/// The last dot of `b.e` is the one before `e` when `e` holds no dot.
pub proof fn lemma_last_dot_append(b: Seq<char>, e: Seq<char>)
    requires
        forall|i: int| 0 <= i < e.len() ==> e[i] != '.',
    ensures
        last_dot(b + seq!['.'] + e) == b.len(),
    decreases e.len(),
{
    let w = b + seq!['.'] + e;
    if e.len() > 0 {
        assert(w.drop_last() =~= b + seq!['.'] + e.drop_last());
        assert(w.last() == e.last());
        lemma_last_dot_append(b, e.drop_last());
    } else {
        assert(w.last() == '.');
    }
}

/// Setting a plain, non-empty extension on a path with a file name keeps its stem and gives it
/// that extension.
pub proof fn lemma_set_extension_result(p: Seq<char>, e: Seq<char>)
    requires
        file_name(p) is Some,
        e.len() > 0,
        no_sep(e),
        forall|i: int| 0 <= i < e.len() ==> e[i] != '.',
    ensures
        file_name(set_extension(p, e)) matches Some(m) && name_extension(m) == Some(e)
            && name_stem(m) == name_stem(file_name(p)->0),
{
    let t = trim_end_seps(p);
    let k = name_start(t);
    let n = file_name(p)->0;
    lemma_trim(p);
    lemma_name_start(t);
    lemma_file_name_parts(p);
    lemma_last_dot(n);
    let st = name_stem(n);
    assert(st.len() > 0);
    assert(st.len() <= n.len());
    assert forall|i: int| 0 <= i < st.len() implies st[i] == t[k + i] by {
        assert(n[i] == t[k + i]);
    }
    let head = t.take(k);
    let tail = st + seq!['.'] + e;
    assert(t.take(k + st.len()) =~= head + st);
    assert(set_extension(p, e) =~= head + tail);
    assert(head.len() == 0 || head.last() == '/') by {
        if k > 0 {
            assert(head.last() == t[k - 1]);
        }
    }
    assert(no_sep(seq!['.']));
    lemma_no_sep_concat(st, seq!['.']);
    lemma_no_sep_concat(st + seq!['.'], e);
    lemma_name_start_append(head, tail);
    let r = head + tail;
    assert(r.last() == e.last());
    assert(trim_end_seps(r) == r);
    assert(r.subrange(head.len() as int, r.len() as int) =~= tail);
    assert(tail.len() > 2 || tail != seq!['.', '.']) by {
        if tail.len() == 2 {
            assert(tail[1] == e[0]);
        }
    }
    assert(tail != seq!['.']);
    lemma_last_dot_append(st, e);
    assert(tail.subrange(st.len() + 1int, tail.len() as int) =~= e);
    assert(tail.subrange(0, st.len() as int) =~= st);
}

// ---------------------------------------------------------------------------------------------
// Executable operations on character slices
// ---------------------------------------------------------------------------------------------

/// Length of `p` without its trailing separators.
pub fn trimmed_len(p: &[char]) -> (r: usize)
    ensures
        r <= p@.len(),
        p@.take(r as int) == trim_end_seps(p@),
{
    let mut r = p.len();
    assert(p@.take(r as int) =~= p@);
    while r > 0 && p[r - 1] == '/'
        invariant
            r <= p@.len(),
            trim_end_seps(p@) == trim_end_seps(p@.take(r as int)),
        decreases r,
    {
        assert(p@.take(r as int).drop_last() == p@.take(r - 1));
        r = r - 1;
    }
    assert(trim_end_seps(p@.take(r as int)) == p@.take(r as int));
    r
}

/// Index just past the last separator in `p[..t]`.
pub fn name_start_in(p: &[char], t: usize) -> (k: usize)
    requires
        t <= p@.len(),
    ensures
        k == name_start(p@.take(t as int)),
{
    let mut k = t;
    while k > 0 && p[k - 1] != '/'
        invariant
            k <= t <= p@.len(),
            name_start(p@.take(t as int)) == name_start(p@.take(k as int)),
        decreases k,
    {
        assert(p@.take(k as int).drop_last() == p@.take(k - 1));
        k = k - 1;
    }
    k
}

/// Index of the last `.` in `p[start..end]` relative to `start`, as `last_dot` of that range.
fn last_dot_in(p: &[char], start: usize, end: usize) -> (d: Option<usize>)
    requires
        start <= end <= p@.len(),
    ensures
        match d {
            Some(x) => x as int == last_dot(p@.subrange(start as int, end as int)) && start + x
                < end,
            None => last_dot(p@.subrange(start as int, end as int)) == -1,
        },
{
    let mut j = end;
    while j > start && p[j - 1] != '.'
        invariant
            start <= j <= end <= p@.len(),
            last_dot(p@.subrange(start as int, end as int)) == last_dot(
                p@.subrange(start as int, j as int),
            ),
        decreases j,
    {
        assert(p@.subrange(start as int, j as int).drop_last() == p@.subrange(
            start as int,
            j - 1,
        ));
        j = j - 1;
    }
    if j == start {
        None
    } else {
        assert(p@.subrange(start as int, j as int).last() == '.');
        Some(j - 1 - start)
    }
}

/// Copy of `p[start..end]`.
pub fn slice_chars(p: &[char], start: usize, end: usize) -> (out: Vec<char>)
    requires
        start <= end <= p@.len(),
    ensures
        out@ == p@.subrange(start as int, end as int),
{
    let mut out: Vec<char> = Vec::new();
    for i in start..end
        invariant
            start <= end <= p@.len(),
            out@ == p@.subrange(start as int, i as int),
    {
        out.push(p[i]);
        assert(p@.subrange(start as int, i + 1) == p@.subrange(start as int, i as int).push(
            p@[i as int],
        ));
    }
    out
}

/// Equality of two character slices.
pub fn chars_eq(a: &[char], b: &[char]) -> (r: bool)
    ensures
        r == (a@ == b@),
{
    if a.len() != b.len() {
        return false;
    }
    let n = a.len();
    for i in 0..n
        invariant
            n == a@.len(),
            n == b@.len(),
            forall|k: int| 0 <= k < i ==> a@[k] == b@[k],
    {
        if a[i] != b[i] {
            return false;
        }
    }
    assert(a@ =~= b@);
    true
}

/// Bounds of the last piece of `p`: `(start, end)` with `p[start..end] == last_piece(p)`.
fn last_piece_bounds(p: &[char]) -> (r: (usize, usize))
    ensures
        r.0 <= r.1 <= p@.len(),
        p@.subrange(r.0 as int, r.1 as int) == last_piece(p@),
        r.1 as int == trim_end_seps(p@).len(),
        r.0 as int == name_start(trim_end_seps(p@)),
{
    let t = trimmed_len(p);
    let k = name_start_in(p, t);
    proof {
        lemma_name_start(p@.take(t as int));
        assert(p@.take(t as int).subrange(k as int, t as int) == p@.subrange(k as int, t as int));
    }
    (k, t)
}

/// `file_name(p)` as bounds into `p`.
fn file_name_bounds(p: &[char]) -> (r: Option<(usize, usize)>)
    ensures
        match r {
            Some((s, e)) => s <= e <= p@.len() && file_name(p@) == Some(p@.subrange(
                s as int,
                e as int,
            )) && e as int == trim_end_seps(p@).len() && s as int == name_start(
                trim_end_seps(p@),
            ),
            None => file_name(p@) is None,
        },
{
    let (s, e) = last_piece_bounds(p);
    let n = e - s;
    if n == 0 {
        return None;
    }
    if n == 1 && p[s] == '.' {
        assert(p@.subrange(s as int, e as int) =~= seq!['.']);
        return None;
    }
    if n == 2 && p[s] == '.' && p[s + 1] == '.' {
        assert(p@.subrange(s as int, e as int) =~= seq!['.', '.']);
        return None;
    }
    proof {
        let piece = p@.subrange(s as int, e as int);
        if piece == seq!['.'] {
            assert(piece[0] == '.');
            assert(piece[0] == p@[s as int]);
        }
        if piece == seq!['.', '.'] {
            assert(piece[0] == '.' && piece[1] == '.');
            assert(piece[0] == p@[s as int] && piece[1] == p@[s + 1]);
        }
        assert(piece.len() == n);
        assert(last_piece(p@) == piece);
        assert(!(piece.len() == 0 || piece == seq!['.'] || piece == seq!['.', '.']));
        assert(file_name(p@) == Some(piece));
    }
    Some((s, e))
}

/// The final component of a path.
pub fn file_name_chars(p: &[char]) -> (r: Option<Vec<char>>)
    ensures
        match r {
            Some(v) => file_name(p@) == Some(v@),
            None => file_name(p@) is None,
        },
{
    match file_name_bounds(p) {
        Some((s, e)) => Some(slice_chars(p, s, e)),
        None => None,
    }
}

/// The extension of a path.
pub fn extension_chars(p: &[char]) -> (r: Option<Vec<char>>)
    ensures
        match r {
            Some(v) => extension(p@) == Some(v@),
            None => extension(p@) is None,
        },
{
    match file_name_bounds(p) {
        None => None,
        Some((s, e)) => {
            let d = last_dot_in(p, s, e);
            match d {
                Some(x) if x > 0 => {
                    proof {
                        let n = p@.subrange(s as int, e as int);
                        assert(n.subrange(x + 1, n.len() as int) =~= p@.subrange(
                            s + x + 1,
                            e as int,
                        ));
                    }
                    Some(slice_chars(p, s + x + 1, e))
                },
                _ => None,
            }
        },
    }
}

/// The stem of a path's file name.
pub fn file_stem_chars(p: &[char]) -> (r: Option<Vec<char>>)
    ensures
        match r {
            Some(v) => file_stem(p@) == Some(v@),
            None => file_stem(p@) is None,
        },
{
    match file_name_bounds(p) {
        None => None,
        Some((s, e)) => {
            let d = last_dot_in(p, s, e);
            match d {
                Some(x) if x > 0 => {
                    proof {
                        let n = p@.subrange(s as int, e as int);
                        assert(n.subrange(0, x as int) =~= p@.subrange(s as int, s + x));
                    }
                    Some(slice_chars(p, s, s + x))
                },
                _ => Some(slice_chars(p, s, e)),
            }
        },
    }
}

/// `base.join(rel)`.
pub fn join_chars(base: &[char], rel: &[char]) -> (out: Vec<char>)
    ensures
        out@ == join(base@, rel@),
{
    let mut out: Vec<char> = Vec::new();
    if rel.len() > 0 && rel[0] == '/' {
        extend_chars(&mut out, rel);
        return out;
    }
    extend_chars(&mut out, base);
    if base.len() > 0 && base[base.len() - 1] != '/' {
        out.push('/');
    }
    extend_chars(&mut out, rel);
    out
}

/// `path.set_extension(ext)`.
pub fn set_extension_chars(p: &[char], ext: &[char]) -> (out: Vec<char>)
    ensures
        out@ == set_extension(p@, ext@),
{
    match file_name_bounds(p) {
        None => {
            let mut out: Vec<char> = Vec::new();
            extend_chars(&mut out, p);
            assert(out@ == p@);
            out
        },
        Some((s, e)) => {
            let d = last_dot_in(p, s, e);
            let stem_end = match d {
                Some(x) if x > 0 => s + x,
                _ => e,
            };
            let mut out = slice_chars(p, 0, stem_end);
            if ext.len() > 0 {
                out.push('.');
                extend_chars(&mut out, ext);
            }
            proof {
                let t = trim_end_seps(p@);
                lemma_trim(p@);
                let n = p@.subrange(s as int, e as int);
                assert(t.take(stem_end as int) == p@.subrange(0, stem_end as int));
                assert(name_stem(n).len() == stem_end - s);
            }
            out
        },
    }
}

/// `path.parent()`.
pub fn parent_chars(p: &[char]) -> (r: Option<Vec<char>>)
    ensures
        match r {
            Some(v) => parent(p@) == Some(v@),
            None => parent(p@) is None,
        },
{
    let t = trimmed_len(p);
    if t == 0 {
        return None;
    }
    let k = name_start_in(p, t);
    proof {
        lemma_name_start(p@.take(t as int));
    }
    if k == 0 {
        let empty: Vec<char> = Vec::new();
        assert(empty@ =~= Seq::<char>::empty());
        return Some(empty);
    }
    let h = trimmed_len(slice_chars(p, 0, k).as_slice());
    proof {
        assert(p@.take(t as int).take(k as int) =~= p@.subrange(0, k as int));
    }
    if h == 0 {
        let mut root: Vec<char> = Vec::new();
        root.push('/');
        assert(root@ =~= seq!['/']);
        return Some(root);
    }
    Some(slice_chars(p, 0, h))
}

/// The components of `p`, as `segments` describes them.
pub fn segments_chars(p: &[char]) -> (out: Vec<Vec<char>>)
    ensures
        views(out@) == segments(p@),
{
    let n = p.len();
    let mut out: Vec<Vec<char>> = Vec::new();
    let mut i: usize = 0;
    assert(p@.skip(0) =~= p@);
    assert(views(out@) =~= Seq::<Seq<char>>::empty());
    while i < n
        invariant
            n == p@.len(),
            i <= n,
            segments(p@) == views(out@) + segments(p@.skip(i as int)),
        decreases n - i,
    {
        if p[i] == '/' {
            assert(p@.skip(i as int).drop_first() == p@.skip(i + 1));
            i = i + 1;
        } else {
            let mut j = i + 1;
            while j < n && p[j] != '/'
                invariant
                    i < j <= n,
                    n == p@.len(),
                    forall|m: int| i <= m < j ==> p@[m] != '/',
                decreases n - j,
            {
                j = j + 1;
            }
            let piece = slice_chars(p, i, j);
            proof {
                let q = p@.skip(i as int);
                lemma_first_sep(q, j - i);
                assert(q.take(j - i) == p@.subrange(i as int, j as int));
                assert(q.skip(j - i) == p@.skip(j as int));
            }
            let is_dot = j == i + 1 && p[i] == '.';
            proof {
                if is_dot {
                    assert(piece@ =~= seq!['.']);
                }
                if piece@ == seq!['.'] {
                    assert(piece@[0] == '.');
                }
            }
            if !is_dot {
                let ghost before = out@;
                out.push(piece);
                assert(views(out@) == views(before) + seq![piece@]);
            }
            i = j;
        }
    }
    assert(p@.skip(n as int) == Seq::<char>::empty());
    assert(views(out@) + Seq::<Seq<char>>::empty() == views(out@));
    out
}

/// Pieces joined with single separators.
pub fn join_segments_chars(s: &[Vec<char>]) -> (out: Vec<char>)
    ensures
        out@ == join_segments(views(s@)),
{
    let mut out: Vec<char> = Vec::new();
    let n = s.len();
    for i in 0..n
        invariant
            n == s@.len(),
            out@ == join_segments(views(s@).take(i as int)),
    {
        let ghost before = out@;
        if i > 0 {
            out.push('/');
            proof {
                lemma_join_segments_step(views(s@), i as int);
            }
        } else {
            assert(views(s@).take(1).len() == 1);
        }
        extend_chars(&mut out, s[i].as_slice());
        proof {
            if i == 0 {
                assert(out@ == views(s@)[0]);
            }
        }
    }
    assert(views(s@).take(n as int) == views(s@));
    out
}

/// Whether `a` begins with the components of `b` (component-wise prefix of segment lists).
fn segments_prefix(a: &Vec<Vec<char>>, b: &Vec<Vec<char>>) -> (r: bool)
    ensures
        r == (views(b@).len() <= views(a@).len() && views(a@).take(views(b@).len() as int)
            == views(b@)),
{
    if b.len() > a.len() {
        return false;
    }
    let n = b.len();
    for i in 0..n
        invariant
            n == b@.len(),
            n <= a@.len(),
            forall|k: int| 0 <= k < i ==> a@[k]@ == b@[k]@,
    {
        if !chars_eq(a[i].as_slice(), b[i].as_slice()) {
            assert(views(a@).take(n as int)[i as int] != views(b@)[i as int]);
            return false;
        }
    }
    assert(views(a@).take(n as int) =~= views(b@));
    true
}

/// `p.starts_with(base)`.
pub fn path_starts_with_chars(p: &[char], base: &[char]) -> (r: bool)
    ensures
        r == path_starts_with(p@, base@),
{
    let abs_p = p.len() > 0 && p[0] == '/';
    let abs_b = base.len() > 0 && base[0] == '/';
    if abs_p != abs_b {
        return false;
    }
    let sp = segments_chars(p);
    let sb = segments_chars(base);
    segments_prefix(&sp, &sb)
}

/// `p == q` for paths.
pub fn same_path_chars(p: &[char], q: &[char]) -> (r: bool)
    ensures
        r == same_path(p@, q@),
{
    let a = path_starts_with_chars(p, q);
    let b = path_starts_with_chars(q, p);
    proof {
        if a && b {
            assert(segments(p@).take(segments(q@).len() as int) == segments(q@));
            assert(segments(p@) =~= segments(q@));
        }
        if same_path(p@, q@) {
            assert(segments(p@).take(segments(q@).len() as int) =~= segments(q@));
        }
    }
    a && b
}

/// `p.strip_prefix(base)`.
pub fn strip_prefix_chars(p: &[char], base: &[char]) -> (r: Option<Vec<char>>)
    ensures
        match r {
            Some(v) => strip_prefix(p@, base@) == Some(v@),
            None => strip_prefix(p@, base@) is None,
        },
{
    if !path_starts_with_chars(p, base) {
        return None;
    }
    let sp = segments_chars(p);
    let sb = segments_chars(base);
    let mut rest: Vec<Vec<char>> = Vec::new();
    let start = sb.len();
    let n = sp.len();
    proof {
        assert(views(sb@).len() <= views(sp@).len());
    }
    for i in start..n
        invariant
            start <= n,
            n == sp@.len(),
            views(rest@) == views(sp@).subrange(start as int, i as int),
    {
        let seg = slice_chars(sp[i].as_slice(), 0, sp[i].len());
        assert(seg@ == sp@[i as int]@);
        let ghost before = rest@;
        rest.push(seg);
        assert(views(rest@) =~= views(before).push(seg@));
        assert(views(rest@) =~= views(sp@).subrange(start as int, i + 1));
    }
    assert(views(sp@).subrange(start as int, n as int) == views(sp@).skip(start as int));
    Some(join_segments_chars(rest.as_slice()))
}

/// Whether a file name is hidden: it starts with a dot.
pub fn is_hidden_chars(name: &[char]) -> (r: bool)
    ensures
        r == is_hidden(name@),
{
    name.len() > 0 && name[0] == '.'
}

/// Whether some component of `p` is hidden.
pub fn has_hidden_segment_chars(p: &[char]) -> (r: bool)
    ensures
        r == has_hidden_segment(p@),
{
    let segs = segments_chars(p);
    let n = segs.len();
    for i in 0..n
        invariant
            n == segs@.len(),
            views(segs@) == segments(p@),
            forall|k: int| 0 <= k < i ==> !is_hidden(#[trigger] segments(p@)[k]),
    {
        if is_hidden_chars(segs[i].as_slice()) {
            assert(is_hidden(segments(p@)[i as int]));
            return true;
        }
    }
    false
}

} // verus!
