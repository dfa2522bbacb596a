//! How the library reads a path written as text: the way `std::path` reads
//! it on Unix. `/` is the only separator. A leading `/` is the root, and a
//! leading `.` component is the current directory; after those, empty and
//! `.` components are skipped and `..` names the parent directory. The last
//! remaining component is the file name (there is none when it is `..`, the
//! root, the current directory, or when the path is empty). The stem and the
//! extension split the file name at its last `.`, where a leading dot alone
//! does not start an extension. The parent is the text before the last
//! component, with trailing separators and `.` components dropped.
//!
//! The reading is the same on every platform: the Windows forms (`\` as a
//! second separator, drive and UNC prefixes, `\` when joining) are not
//! modelled, so a path such as `C:\My.Dir\movie` reads as one file name
//! with the stem `C:\My` and the extension `Dir\movie`.

use vstd::prelude::*;
use crate::text::{chars_of, string_from_chars, string_of};

verus! {

/// A path component separator.
pub open spec fn is_sep(c: char) -> bool {
    c == '/'
}

/// Where the components after the root or a leading `.` begin.
pub open spec fn body_start(p: Seq<char>) -> int {
    if p.len() > 0 && p[0] == '/' {
        1
    } else if p.len() > 0 && p[0] == '.' && (p.len() == 1 || p[1] == '/') {
        1
    } else {
        0
    }
}

/// The start of the component of `p` that ends at `e`: just past the last
/// `/` in `p[b..e]`, or `b` when there is none.
pub open spec fn seg_start(p: Seq<char>, b: int, e: int) -> int
    decreases e - b,
{
    if e <= b {
        b
    } else if p[e - 1] == '/' {
        e
    } else {
        seg_start(p, b, e - 1)
    }
}

/// The end of `p[..e]` once the trailing separators and `.` components
/// after `b` are dropped.
pub open spec fn trim_end(p: Seq<char>, b: int, e: int) -> int
    decreases e - b,
{
    if e <= b {
        b
    } else if p[e - 1] == '/' {
        trim_end(p, b, e - 1)
    } else if seg_start(p, b, e) == e - 1 && p[e - 1] == '.' {
        trim_end(p, b, e - 1)
    } else {
        e
    }
}

/// The end of the last component of `p`.
pub open spec fn last_end(p: Seq<char>) -> int {
    trim_end(p, body_start(p), p.len() as int)
}

/// The start of the last component of `p`.
pub open spec fn last_start(p: Seq<char>) -> int {
    seg_start(p, body_start(p), last_end(p))
}

/// `Path::file_name`: the last component, unless it is `..` or there is no
/// component after the root or a leading `.`.
pub open spec fn file_name(p: Seq<char>) -> Option<Seq<char>> {
    let c = p.subrange(last_start(p), last_end(p));
    if last_end(p) > body_start(p) && c != ".."@ {
        Some(c)
    } else {
        None
    }
}

/// `Path::parent`: the text before the last component, trimmed; the empty
/// path for a lone `.`; none for the root or the empty path.
pub open spec fn parent(p: Seq<char>) -> Option<Seq<char>> {
    let b = body_start(p);
    if last_end(p) > b {
        Some(p.take(trim_end(p, b, last_start(p))))
    } else if p.len() > 0 && p[0] == '.' {
        Some(Seq::empty())
    } else {
        None
    }
}

/// The position of the last `.` in `s`, or -1.
pub open spec fn last_dot(s: Seq<char>) -> int
    decreases s.len(),
{
    if s.len() == 0 {
        -1
    } else if s.last() == '.' {
        s.len() - 1
    } else {
        last_dot(s.drop_last())
    }
}

/// The stem of a file name: the part before its last `.`, unless that dot
/// is its first character (or there is none).
pub open spec fn stem_of(n: Seq<char>) -> Seq<char> {
    let k = last_dot(n);
    if k > 0 {
        n.take(k)
    } else {
        n
    }
}

/// `Path::extension`: what follows the last `.` of the file name, unless
/// that dot is the name's first character (or there is none).
pub open spec fn extension(p: Seq<char>) -> Option<Seq<char>> {
    match file_name(p) {
        Some(n) => if last_dot(n) > 0 {
            Some(n.skip(last_dot(n) + 1))
        } else {
            None
        },
        None => None,
    }
}

/// `Path::file_stem`: the file name without its extension.
pub open spec fn file_stem(p: Seq<char>) -> Option<Seq<char>> {
    match file_name(p) {
        Some(n) => Some(stem_of(n)),
        None => None,
    }
}

/// `dir.join(name)` for a relative `name`: a `/` goes between them unless
/// `dir` is empty or already ends with one.
pub open spec fn path_join(dir: Seq<char>, name: Seq<char>) -> Seq<char> {
    if dir.len() == 0 || dir.last() == '/' {
        dir + name
    } else {
        dir + seq!['/'] + name
    }
}

/// `p.parent().unwrap_or(Path::new(".")).join(name)`: `name` placed in the
/// directory of `p`.
pub open spec fn sibling(p: Seq<char>, name: Seq<char>) -> Seq<char> {
    match parent(p) {
        Some(d) => path_join(d, name),
        None => path_join("."@, name),
    }
}

/// A component starts within its range, right after a separator (or at
/// `b`), and holds no separator.
pub proof fn lemma_seg_start_bounds(p: Seq<char>, b: int, e: int)
    requires
        0 <= b <= e <= p.len(),
    ensures
        b <= seg_start(p, b, e) <= e,
        forall|i: int| seg_start(p, b, e) <= i < e ==> !is_sep(#[trigger] p[i]),
        seg_start(p, b, e) > b ==> is_sep(p[seg_start(p, b, e) - 1]),
    decreases e - b,
{
    if e > b && p[e - 1] != '/' {
        lemma_seg_start_bounds(p, b, e - 1);
    }
}

/// Trimming stays within the range.
pub proof fn lemma_trim_end_bounds(p: Seq<char>, b: int, e: int)
    requires
        0 <= b <= e <= p.len(),
    ensures
        b <= trim_end(p, b, e) <= e,
        trim_end(p, b, e) > b ==> p[trim_end(p, b, e) - 1] != '/',
    decreases e - b,
{
    if e > b {
        lemma_seg_start_bounds(p, b, e);
        lemma_trim_end_bounds(p, b, e - 1);
    }
}

/// The last component lies within the body.
pub proof fn lemma_last_bounds(p: Seq<char>)
    ensures
        0 <= body_start(p) <= last_start(p) <= last_end(p) <= p.len(),
        forall|i: int| last_start(p) <= i < last_end(p) ==> !is_sep(#[trigger] p[i]),
        last_end(p) > body_start(p) ==> last_start(p) < last_end(p),
{
    lemma_trim_end_bounds(p, body_start(p), p.len() as int);
    lemma_seg_start_bounds(p, body_start(p), last_end(p));
    if last_end(p) > body_start(p) {
        lemma_seg_start_bounds(p, body_start(p), last_end(p) - 1);
    }
}

/// The last `.` of a name (if any) lies within it, and no `.` follows it.
pub proof fn lemma_last_dot_bounds(s: Seq<char>)
    ensures
        -1 <= last_dot(s) < s.len(),
        last_dot(s) >= 0 ==> s[last_dot(s)] == '.',
        forall|i: int| last_dot(s) < i < s.len() ==> #[trigger] s[i] != '.',
    decreases s.len(),
{
    if s.len() > 0 && s.last() != '.' {
        let q = s.drop_last();
        lemma_last_dot_bounds(q);
        assert forall|i: int| last_dot(s) < i < s.len() implies #[trigger] s[i] != '.' by {
            if i < q.len() {
                assert(s[i] == q[i]);
            }
        }
    }
}

/// The stem of a non-empty name is non-empty and holds no separator when
/// the name holds none.
pub proof fn lemma_stem_of(n: Seq<char>)
    requires
        n.len() > 0,
    ensures
        0 < stem_of(n).len() <= n.len(),
        forall|i: int| 0 <= i < stem_of(n).len() ==> stem_of(n)[i] == n[i],
{
    lemma_last_dot_bounds(n);
}

fn body_start_of(v: &Vec<char>) -> (r: usize)
    ensures
        r == body_start(v@),
{
    if v.len() > 0 && v[0] == '/' {
        1
    } else if v.len() > 0 && v[0] == '.' && (v.len() == 1 || v[1] == '/') {
        1
    } else {
        0
    }
}

fn seg_start_of(v: &Vec<char>, b: usize, e: usize) -> (r: usize)
    requires
        b <= e <= v.len(),
    ensures
        r == seg_start(v@, b as int, e as int),
{
    let mut i = e;
    while i > b
        invariant
            b <= i <= e <= v.len(),
            seg_start(v@, b as int, e as int) == seg_start(v@, b as int, i as int),
        decreases i,
    {
        if v[i - 1] == '/' {
            return i;
        }
        i = i - 1;
    }
    b
}

fn trim_end_of(v: &Vec<char>, b: usize, e: usize) -> (r: usize)
    requires
        b <= e <= v.len(),
    ensures
        r == trim_end(v@, b as int, e as int),
{
    let mut i = e;
    while i > b
        invariant
            b <= i <= e <= v.len(),
            trim_end(v@, b as int, e as int) == trim_end(v@, b as int, i as int),
        decreases i,
    {
        if v[i - 1] == '/' {
            i = i - 1;
        } else {
            let s = seg_start_of(v, b, i);
            if s == i - 1 && v[i - 1] == '.' {
                i = i - 1;
            } else {
                return i;
            }
        }
    }
    b
}

/// The body start and the bounds of the last component of `v`.
fn last_component(v: &Vec<char>) -> (r: (usize, usize, usize))
    ensures
        r.0 == body_start(v@),
        r.1 == last_start(v@),
        r.2 == last_end(v@),
        r.0 <= r.1 <= r.2 <= v.len(),
{
    let b = body_start_of(v);
    let e = trim_end_of(v, b, v.len());
    proof {
        lemma_last_bounds(v@);
    }
    let s = seg_start_of(v, b, e);
    (b, s, e)
}

/// The position of the last `.` in `v[from..to]`, if any.
fn find_last_dot(v: &Vec<char>, from: usize, to: usize) -> (r: Option<usize>)
    requires
        from <= to <= v.len(),
    ensures
        match r {
            Some(k) => from <= k < to && k - from == last_dot(v@.subrange(from as int, to as int)),
            None => last_dot(v@.subrange(from as int, to as int)) == -1,
        },
{
    let mut i = to;
    while i > from
        invariant
            from <= i <= to <= v.len(),
            last_dot(v@.subrange(from as int, to as int)) == last_dot(v@.subrange(from as int, i as int)),
        decreases i,
    {
        assert(v@.subrange(from as int, i as int).drop_last() =~= v@.subrange(from as int, i - 1));
        if v[i - 1] == '.' {
            return Some(i - 1);
        }
        i = i - 1;
    }
    None
}

/// The characters `v[from..to]` as a `String`.
pub fn substring(v: &Vec<char>, from: usize, to: usize) -> (r: String)
    requires
        from <= to <= v.len(),
    ensures
        r@ == v@.subrange(from as int, to as int),
{
    let mut w: Vec<char> = Vec::new();
    let mut i = from;
    while i < to
        invariant
            from <= i <= to <= v.len(),
            w@ == v@.subrange(from as int, i as int),
        decreases to - i,
    {
        w.push(v[i]);
        i = i + 1;
        assert(w@ =~= v@.subrange(from as int, i as int));
    }
    string_from_chars(&w)
}

/// Whether `v[s..e]` is `..`.
fn is_dot_dot(v: &Vec<char>, s: usize, e: usize) -> (r: bool)
    requires
        s <= e <= v.len(),
    ensures
        r == (v@.subrange(s as int, e as int) == ".."@),
{
    proof {
        reveal_strlit("..");
    }
    let ghost t = v@.subrange(s as int, e as int);
    assert(".."@.len() == 2 && ".."@[0] == '.' && ".."@[1] == '.');
    let r = e - s == 2 && v[s] == '.' && v[s + 1] == '.';
    if e - s == 2 {
        assert(t[0] == v[s as int]);
        assert(t[1] == v[s + 1]);
        if r {
            assert(t =~= ".."@);
        }
    }
    r
}

/// `Path::file_name`, as text.
pub fn path_file_name(p: &str) -> (r: Option<String>)
    ensures
        opt_chars(r) == file_name(p@),
{
    let v = chars_of(p);
    let (b, s, e) = last_component(&v);
    if e > b && !is_dot_dot(&v, s, e) {
        Some(substring(&v, s, e))
    } else {
        None
    }
}

/// `Path::extension`, as text.
pub fn path_extension(p: &str) -> (r: Option<String>)
    ensures
        opt_chars(r) == extension(p@),
{
    let v = chars_of(p);
    let (b, s, e) = last_component(&v);
    if e > b && !is_dot_dot(&v, s, e) {
        let ghost n = v@.subrange(s as int, e as int);
        match find_last_dot(&v, s, e) {
            Some(d) => {
                if d > s {
                    let r = substring(&v, d + 1, e);
                    assert(r@ =~= n.skip(last_dot(n) + 1));
                    Some(r)
                } else {
                    None
                }
            },
            None => None,
        }
    } else {
        None
    }
}

/// `Path::file_stem`, as text.
pub fn path_stem(p: &str) -> (r: Option<String>)
    ensures
        opt_chars(r) == file_stem(p@),
{
    let v = chars_of(p);
    let (b, s, e) = last_component(&v);
    if e > b && !is_dot_dot(&v, s, e) {
        let ghost n = v@.subrange(s as int, e as int);
        match find_last_dot(&v, s, e) {
            Some(d) => {
                if d > s {
                    let r = substring(&v, s, d);
                    assert(r@ =~= n.take(last_dot(n)));
                    Some(r)
                } else {
                    Some(substring(&v, s, e))
                }
            },
            None => Some(substring(&v, s, e)),
        }
    } else {
        None
    }
}

/// `Path::parent`, as text.
pub fn path_parent(p: &str) -> (r: Option<String>)
    ensures
        opt_chars(r) == parent(p@),
{
    let v = chars_of(p);
    let (b, s, e) = last_component(&v);
    if e > b {
        proof {
            lemma_trim_end_bounds(v@, b as int, s as int);
        }
        let t = trim_end_of(&v, b, s);
        let r = substring(&v, 0, t);
        assert(r@ =~= v@.take(t as int));
        Some(r)
    } else if v.len() > 0 && v[0] == '.' {
        Some(String::new())
    } else {
        None
    }
}

/// `dir.join(name)` for a relative `name`.
pub fn join_path(dir: &str, name: &str) -> (r: String)
    ensures
        r@ == path_join(dir@, name@),
{
    let d = chars_of(dir);
    let mut r = string_of(dir);
    if d.len() > 0 && d[d.len() - 1] != '/' {
        r.append("/");
        proof {
            reveal_strlit("/");
        }
        assert(r@ =~= dir@ + seq!['/']);
    }
    r.append(name);
    r
}

/// `Path::new(p).parent().unwrap_or(Path::new(".")).join(name)` for a
/// relative `name`.
pub fn sibling_path(p: &str, name: &str) -> (r: String)
    ensures
        r@ == sibling(p@, name@),
{
    match path_parent(p) {
        Some(d) => join_path(d.as_str(), name),
        None => join_path(".", name),
    }
}

/// The characters of an optional string.
pub open spec fn opt_chars(o: Option<String>) -> Option<Seq<char>> {
    match o {
        Some(s) => Some(s@),
        None => None,
    }
}

} // verus!
