//! Paths as text: file names, extensions, stems and parent directories of
//! `/`-separated paths, and where the application keeps its data.
//!
//! A path is read the way `std::path::Path` reads it on Unix: trailing `/`
//! and trailing `.` components do not count, the file name is the last
//! component unless that component is `..`, the extension is what follows
//! the last `.` of the file name unless that `.` starts the name, and the
//! stem is what precedes it. Directories are compared by their components,
//! through `norm`, as `Path` compares them.

use vstd::prelude::*;
use vstd::string::*;
use crate::text::{ascii_lower, chars_of, lower_seq, push_char, string_of};

verus! {

/// Index of the last occurrence of `c` in `s`, or `-1`.
pub open spec fn last_index_of(s: Seq<char>, c: char) -> int
    decreases s.len(),
{
    if s.len() == 0 {
        -1
    } else if s.last() == c {
        s.len() - 1
    } else {
        last_index_of(s.drop_last(), c)
    }
}

/// The path without trailing separators and trailing `.` components.
pub open spec fn trim_tail(p: Seq<char>) -> Seq<char>
    decreases p.len(),
{
    if p.len() == 0 {
        p
    } else if p.last() == '/' {
        trim_tail(p.drop_last())
    } else if p.last() == '.' && (p.len() == 1 || p[p.len() - 2] == '/') {
        trim_tail(p.drop_last())
    } else {
        p
    }
}

/// The last component of a path, if it is a name.
pub open spec fn path_file_name(p: Seq<char>) -> Option<Seq<char>> {
    let q = trim_tail(p);
    let name = q.subrange(last_index_of(q, '/') + 1, q.len() as int);
    if name.len() == 0 || name == seq!['.', '.'] {
        None
    } else {
        Some(name)
    }
}

/// Extension of a file name: what follows its last `.`, unless there is no
/// `.` or the only place for it is the start of the name.
pub open spec fn name_extension(name: Seq<char>) -> Option<Seq<char>> {
    let d = last_index_of(name, '.');
    if d <= 0 {
        None
    } else {
        Some(name.subrange(d + 1, name.len() as int))
    }
}

/// Stem of a file name: the name without its extension and its last dot.
pub open spec fn name_stem(name: Seq<char>) -> Seq<char> {
    let d = last_index_of(name, '.');
    if d <= 0 {
        name
    } else {
        name.subrange(0, d)
    }
}

/// Extension of a path, if it has a file name with an extension.
pub open spec fn path_extension(p: Seq<char>) -> Option<Seq<char>> {
    match path_file_name(p) {
        Some(name) => name_extension(name),
        None => None,
    }
}

/// Lowercased extension of a path.
pub open spec fn path_extension_lower(p: Seq<char>) -> Option<Seq<char>> {
    match path_extension(p) {
        Some(e) => Some(lower_seq(e)),
        None => None,
    }
}

/// Stem of a path, if it has a file name.
pub open spec fn path_stem(p: Seq<char>) -> Option<Seq<char>> {
    match path_file_name(p) {
        Some(name) => Some(name_stem(name)),
        None => None,
    }
}

/// A sequence without its trailing separators.
pub open spec fn strip_seps(s: Seq<char>) -> Seq<char>
    decreases s.len(),
{
    if s.len() > 0 && s.last() == '/' {
        strip_seps(s.drop_last())
    } else {
        s
    }
}

/// Directory part of a path that has a file name: the text before the last
/// component without trailing separators, `/` for a file at the root, and
/// empty for a bare name.
pub open spec fn path_parent(p: Seq<char>) -> Option<Seq<char>> {
    if path_file_name(p) is None {
        None
    } else {
        let q = trim_tail(p);
        let i = last_index_of(q, '/');
        if i < 0 {
            Some(Seq::empty())
        } else {
            let t = strip_seps(q.subrange(0, i + 1));
            if t.len() == 0 {
                Some(seq!['/'])
            } else {
                Some(t)
            }
        }
    }
}

/// `base` joined with a relative `name`, with one separator between them
/// unless `base` is empty or already ends with one.
pub open spec fn path_join(base: Seq<char>, name: Seq<char>) -> Seq<char> {
    if base.len() == 0 || base.last() == '/' {
        base + name
    } else {
        base + seq!['/'] + name
    }
}

proof fn lemma_take_drop_last(s: Seq<char>, k: int)
    requires
        0 < k <= s.len(),
    ensures
        s.take(k).drop_last() == s.take(k - 1),
        s.take(k).last() == s[k - 1],
{
    assert(s.take(k).drop_last() =~= s.take(k - 1));
}

/// Index of the last `c` among the first `end` characters of `v`.
fn last_index_in(v: &Vec<char>, c: char, end: usize) -> (r: Option<usize>)
    requires
        end <= v@.len(),
    ensures
        match r {
            Some(i) => last_index_of(v@.take(end as int), c) == i as int && i < end,
            None => last_index_of(v@.take(end as int), c) == -1,
        },
{
    let mut k = end;
    while k > 0
        invariant
            k <= end <= v@.len(),
            last_index_of(v@.take(end as int), c) == last_index_of(v@.take(k as int), c),
        decreases k,
    {
        proof {
            lemma_take_drop_last(v@, k as int);
        }
        if v[k - 1] == c {
            return Some(k - 1);
        }
        k = k - 1;
    }
    assert(v@.take(0) =~= Seq::<char>::empty());
    None
}

/// Length of the trimmed form of `v`.
fn trim_tail_len(v: &Vec<char>) -> (k: usize)
    ensures
        k <= v@.len(),
        trim_tail(v@) == v@.take(k as int),
{
    let mut k = v.len();
    assert(v@.take(k as int) =~= v@);
    loop
        invariant
            k <= v@.len(),
            trim_tail(v@) == trim_tail(v@.take(k as int)),
        decreases k,
    {
        if k == 0 {
            return k;
        }
        proof {
            lemma_take_drop_last(v@, k as int);
            if k >= 2 {
                assert(v@.take(k as int)[k - 2] == v@[k - 2]);
            }
        }
        let c = v[k - 1];
        if c == '/' || (c == '.' && (k == 1 || v[k - 2] == '/')) {
            k = k - 1;
        } else {
            return k;
        }
    }
}

/// Start and end of the file name of `v`, if it has one.
fn file_name_range(v: &Vec<char>) -> (r: Option<(usize, usize)>)
    ensures
        match r {
            Some((a, b)) => a < b <= v@.len() && path_file_name(v@) == Some(v@.subrange(a as int, b as int)),
            None => path_file_name(v@) is None,
        },
{
    let end = trim_tail_len(v);
    let ghost q = v@.take(end as int);
    let start = match last_index_in(v, '/', end) {
        Some(i) => i + 1,
        None => 0,
    };
    assert(q.subrange(start as int, end as int) =~= v@.subrange(start as int, end as int));
    if start == end {
        return None;
    }
    if end - start == 2 && v[start] == '.' && v[start + 1] == '.' {
        assert(v@.subrange(start as int, end as int) =~= seq!['.', '.']);
        return None;
    }
    proof {
        if v@.subrange(start as int, end as int) == seq!['.', '.'] {
            assert(v@.subrange(start as int, end as int)[0] == v@[start as int]);
            assert(v@.subrange(start as int, end as int)[1] == v@[start + 1]);
        }
    }
    Some((start, end))
}

/// Position of the dot that starts the extension of the name `v[a..b]`, if
/// the name has an extension.
fn extension_dot(v: &Vec<char>, a: usize, b: usize) -> (r: Option<usize>)
    requires
        a <= b <= v@.len(),
    ensures
        ({
            let name = v@.subrange(a as int, b as int);
            let d = last_index_of(name, '.');
            match r {
                Some(i) => a < i < b && d == i - a && d > 0,
                None => d <= 0,
            }
        }),
{
    let mut k = b;
    let ghost name = v@.subrange(a as int, b as int);
    assert(name.take(name.len() as int) =~= name);
    while k > a
        invariant
            a <= k <= b <= v@.len(),
            name == v@.subrange(a as int, b as int),
            last_index_of(name, '.') == last_index_of(name.take(k - a), '.'),
        decreases k,
    {
        proof {
            lemma_take_drop_last(name, k - a);
        }
        if v[k - 1] == '.' {
            if k - 1 == a {
                return None;
            }
            return Some(k - 1);
        }
        k = k - 1;
    }
    assert(name.take(0) =~= Seq::<char>::empty());
    None
}

/// The lowercased characters `v[a..b]`.
fn lower_range(v: &Vec<char>, a: usize, b: usize) -> (r: Vec<char>)
    requires
        a <= b <= v@.len(),
    ensures
        r@ == lower_seq(v@.subrange(a as int, b as int)),
{
    let mut r: Vec<char> = Vec::new();
    let mut k = a;
    while k < b
        invariant
            a <= k <= b <= v@.len(),
            r@ == lower_seq(v@.subrange(a as int, k as int)),
        decreases b - k,
    {
        let c = ascii_lower(v[k]);
        r.push(c);
        assert(r@ =~= lower_seq(v@.subrange(a as int, k + 1)));
        k = k + 1;
    }
    r
}

/// The lowercased extension of a path.
pub fn extension_lower(path: &str) -> (r: Option<String>)
    ensures
        match r {
            Some(e) => path_extension_lower(path@) == Some(e@),
            None => path_extension_lower(path@) is None,
        },
{
    let v = chars_of(path);
    match file_name_range(&v) {
        None => None,
        Some((a, b)) => match extension_dot(&v, a, b) {
            None => None,
            Some(d) => {
                let ghost name = v@.subrange(a as int, b as int);
                assert(name.subrange(d - a + 1, name.len() as int) =~= v@.subrange(d + 1, b as int));
                let e = lower_range(&v, d + 1, b);
                Some(string_of(&e))
            },
        },
    }
}

/// The file name of a path, if it has one.
pub fn file_name(path: &str) -> (r: Option<String>)
    ensures
        match r {
            Some(n) => path_file_name(path@) == Some(n@),
            None => path_file_name(path@) is None,
        },
{
    let v = chars_of(path);
    match file_name_range(&v) {
        None => None,
        Some((a, b)) => {
            let mut out: Vec<char> = Vec::new();
            let mut k = a;
            while k < b
                invariant
                    a <= k <= b <= v@.len(),
                    out@ == v@.subrange(a as int, k as int),
                decreases b - k,
            {
                out.push(v[k]);
                assert(out@ =~= v@.subrange(a as int, k + 1));
                k = k + 1;
            }
            Some(string_of(&out))
        },
    }
}

/// The name a file is shown under: its file name, or the whole path when it
/// has none.
pub fn display_file_name(path: &str) -> (r: String)
    ensures
        r@ == match path_file_name(path@) {
            Some(n) => n,
            None => path@,
        },
{
    match file_name(path) {
        Some(n) => n,
        None => String::from_str(path),
    }
}

/// Lowercased stem and lowercased extension of a path, when the path has a
/// file name with an extension.
pub(crate) fn stem_and_extension_lower(v: &Vec<char>) -> (r: Option<(Vec<char>, Vec<char>)>)
    ensures
        match r {
            Some((s, e)) => path_extension_lower(v@) == Some(e@) && path_stem(v@) is Some
                && s@ == lower_seq(path_stem(v@).unwrap()),
            None => path_extension_lower(v@) is None,
        },
{
    match file_name_range(v) {
        None => None,
        Some((a, b)) => match extension_dot(v, a, b) {
            None => None,
            Some(d) => {
                let ghost name = v@.subrange(a as int, b as int);
                assert(name.subrange(d - a + 1, name.len() as int) =~= v@.subrange(d + 1, b as int));
                assert(name.subrange(0, d - a) =~= v@.subrange(a as int, d as int));
                let e = lower_range(v, d + 1, b);
                let s = lower_range(v, a, d);
                Some((s, e))
            },
        },
    }
}

/// Lowercased stem of a path, if it has a file name.
pub(crate) fn stem_lower(v: &Vec<char>) -> (r: Option<Vec<char>>)
    ensures
        match r {
            Some(s) => path_stem(v@) is Some && s@ == lower_seq(path_stem(v@).unwrap()),
            None => path_stem(v@) is None,
        },
{
    match file_name_range(v) {
        None => None,
        Some((a, b)) => match extension_dot(v, a, b) {
            None => Some(lower_range(v, a, b)),
            Some(d) => {
                let ghost name = v@.subrange(a as int, b as int);
                assert(name.subrange(0, d - a) =~= v@.subrange(a as int, d as int));
                Some(lower_range(v, a, d))
            },
        },
    }
}

/// Length of `v[..end]` without its trailing separators.
fn strip_seps_len(v: &Vec<char>, end: usize) -> (k: usize)
    requires
        end <= v@.len(),
    ensures
        k <= end,
        strip_seps(v@.take(end as int)) == v@.take(k as int),
{
    let mut k = end;
    while k > 0 && v[k - 1] == '/'
        invariant
            k <= end <= v@.len(),
            strip_seps(v@.take(end as int)) == strip_seps(v@.take(k as int)),
        decreases k,
    {
        proof {
            lemma_take_drop_last(v@, k as int);
        }
        k = k - 1;
    }
    proof {
        if k > 0 {
            lemma_take_drop_last(v@, k as int);
        }
    }
    k
}

/// Parent directory of a path, if it has a file name.
pub(crate) fn parent_chars(v: &Vec<char>) -> (r: Option<Vec<char>>)
    ensures
        match r {
            Some(d) => path_parent(v@) == Some(d@),
            None => path_parent(v@) is None,
        },
{
    match file_name_range(v) {
        None => None,
        Some(_) => {
            let end = trim_tail_len(v);
            match last_index_in(v, '/', end) {
                None => Some(Vec::new()),
                Some(i) => {
                    let ghost q = v@.take(end as int);
                    assert(q.subrange(0, i + 1) =~= v@.take(i + 1));
                    let k = strip_seps_len(v, i + 1);
                    if k == 0 {
                        let mut d: Vec<char> = Vec::new();
                        d.push('/');
                        assert(d@ =~= seq!['/']);
                        Some(d)
                    } else {
                        let mut d: Vec<char> = Vec::new();
                        let mut j: usize = 0;
                        while j < k
                            invariant
                                j <= k <= v@.len(),
                                d@ == v@.take(j as int),
                            decreases k - j,
                        {
                            d.push(v[j]);
                            assert(d@ =~= v@.take(j + 1));
                            j = j + 1;
                        }
                        Some(d)
                    }
                },
            }
        },
    }
}

/// Text of `v` joined with `name`.
pub(crate) fn join_chars(base: &str, name: &str) -> (r: String)
    ensures
        r@ == path_join(base@, name@),
{
    let b = chars_of(base);
    let mut out = String::from_str(base);
    if b.len() > 0 && b[b.len() - 1] != '/' {
        push_char(&mut out, '/');
    }
    proof {
        if b@.len() > 0 {
            assert(b@.last() == b@[b@.len() - 1]);
        }
    }
    out.append(name);
    out
}

/// Directory the application keeps its data in, below the platform data
/// directory or, when there is none, below the current directory.
pub fn app_data_dir(data_dir: Option<&str>) -> (r: String)
    ensures
        r@ == path_join(
            match data_dir {
                Some(d) => d@,
                None => "."@,
            },
            "photo-duplicate-finder"@,
        ),
{
    match data_dir {
        Some(d) => join_chars(d, "photo-duplicate-finder"),
        None => join_chars(".", "photo-duplicate-finder"),
    }
}

/// Path of the index database in the application data directory.
pub fn database_path(app_dir: &str) -> (r: String)
    ensures
        r@ == path_join(app_dir@, "index.db"@),
{
    join_chars(app_dir, "index.db")
}

/// Directory the thumbnails are cached in, in the application data directory.
pub fn thumbnail_cache_dir(app_dir: &str) -> (r: String)
    ensures
        r@ == path_join(app_dir@, "thumbs"@),
{
    join_chars(app_dir, "thumbs")
}

/// The `/`-separated segments of a text, empty ones included, read left to
/// right: each `/` ends a segment and starts a new, empty one.
pub open spec fn segments(p: Seq<char>) -> Seq<Seq<char>>
    decreases p.len(),
{
    if p.len() == 0 {
        seq![Seq::empty()]
    } else {
        let s = segments(p.drop_last());
        if p.last() == '/' {
            s.push(Seq::empty())
        } else {
            s.update(s.len() - 1, s.last().push(p.last()))
        }
    }
}

/// A segment that names a component: not empty and not `.`.
pub open spec fn is_name(seg: Seq<char>) -> bool {
    seg.len() > 0 && seg != seq!['.']
}

/// What a path's components start with: `/` for a root, `.` for a leading
/// `.` component of a relative path, else nothing.
pub open spec fn norm_start(p: Seq<char>) -> Seq<char> {
    if p.len() > 0 && p[0] == '/' {
        seq!['/']
    } else if p.len() > 0 && p[0] == '.' && (p.len() == 1 || p[1] == '/') {
        seq!['.']
    } else {
        Seq::empty()
    }
}

/// The names appended to `start`, each joined with `path_join`.
pub open spec fn join_all(start: Seq<char>, names: Seq<Seq<char>>) -> Seq<char>
    decreases names.len(),
{
    if names.len() == 0 {
        start
    } else {
        path_join(join_all(start, names.drop_last()), names.last())
    }
}

/// The text of a path's components, as `std::path::Path` lists them on
/// Unix: a root, a leading `.` of a relative path, then the names, with
/// empty and `.` segments dropped. Two paths that `Path` compares equal
/// have one `norm`.
pub open spec fn norm(p: Seq<char>) -> Seq<char> {
    join_all(norm_start(p), segments(p).filter(|seg: Seq<char>| is_name(seg)))
}

/// Appends a segment to a component text when it is a name.
fn push_name(out: &mut Vec<char>, seg: &Vec<char>)
    ensures
        final(out)@ == (if is_name(seg@) { path_join(old(out)@, seg@) } else { old(out)@ }),
{
    let keep = seg.len() > 0 && !(seg.len() == 1 && seg[0] == '.');
    proof {
        if seg@.len() == 1 && seg@[0] == '.' {
            assert(seg@ =~= seq!['.']);
        }
        if seg@ == seq!['.'] {
            assert(seg@[0] == '.');
        }
    }
    if keep {
        let ghost before = out@;
        if out.len() > 0 && out[out.len() - 1] != '/' {
            out.push('/');
        }
        let ghost mid = out@;
        let mut k: usize = 0;
        while k < seg.len()
            invariant
                k <= seg@.len(),
                out@ == mid + seg@.take(k as int),
            decreases seg@.len() - k,
        {
            out.push(seg[k]);
            assert(seg@.take(k + 1) =~= seg@.take(k as int).push(seg@[k as int]));
            k = k + 1;
        }
        proof {
            assert(seg@.take(seg@.len() as int) =~= seg@);
            if before.len() > 0 {
                assert(before.last() == before[before.len() - 1]);
            }
            assert(out@ =~= path_join(before, seg@));
        }
    }
}

/// The names of `done` followed by `seg`, given those of `done`.
proof fn lemma_filter_push_name(done: Seq<Seq<char>>, seg: Seq<char>)
    ensures
        done.push(seg).filter(|s: Seq<char>| is_name(s)) == (if is_name(seg) {
            done.filter(|s: Seq<char>| is_name(s)).push(seg)
        } else {
            done.filter(|s: Seq<char>| is_name(s))
        }),
{
    reveal_with_fuel(Seq::filter, 1);
    assert(done.push(seg).drop_last() =~= done);
}

/// The component text of a path given by its characters.
pub fn norm_chars(v: &Vec<char>) -> (r: Vec<char>)
    ensures
        r@ == norm(v@),
{
    let n = v.len();
    let mut out: Vec<char> = Vec::new();
    if n > 0 && v[0] == '/' {
        out.push('/');
    } else if n > 0 && v[0] == '.' && (n == 1 || v[1] == '/') {
        out.push('.');
    }
    let ghost start = out@;
    assert(start =~= norm_start(v@));
    let ghost mut done: Seq<Seq<char>> = Seq::empty();
    let mut cur: Vec<char> = Vec::new();
    let mut i: usize = 0;
    assert(v@.take(0) =~= Seq::<char>::empty());
    assert(done.push(cur@) =~= seq![Seq::<char>::empty()]);
    while i < n
        invariant
            n == v@.len(),
            i <= n,
            start == norm_start(v@),
            segments(v@.take(i as int)) == done.push(cur@),
            out@ == join_all(start, done.filter(|s: Seq<char>| is_name(s))),
        decreases n - i,
    {
        let t = Ghost(v@.take(i + 1));
        proof {
            assert(t@.drop_last() =~= v@.take(i as int));
            assert(t@.last() == v@[i as int]);
        }
        if v[i] == '/' {
            let ghost before = out@;
            push_name(&mut out, &cur);
            proof {
                lemma_filter_push_name(done, cur@);
                let f = done.push(cur@).filter(|s: Seq<char>| is_name(s));
                if is_name(cur@) {
                    assert(f.drop_last() =~= done.filter(|s: Seq<char>| is_name(s)));
                }
                done = done.push(cur@);
            }
            cur = Vec::new();
            assert(done.push(cur@) =~= done.push(Seq::<char>::empty()));
        } else {
            proof {
                let s0 = done.push(cur@);
                assert(s0.update(s0.len() - 1, s0.last().push(v@[i as int])) =~= done.push(cur@.push(v@[i as int])));
            }
            cur.push(v[i]);
        }
        i = i + 1;
    }
    push_name(&mut out, &cur);
    proof {
        assert(v@.take(n as int) =~= v@);
        lemma_filter_push_name(done, cur@);
        let f = done.push(cur@).filter(|s: Seq<char>| is_name(s));
        if is_name(cur@) {
            assert(f.drop_last() =~= done.filter(|s: Seq<char>| is_name(s)));
        }
    }
    out
}

/// The component text of a path.
pub fn norm_text(path: &str) -> (r: String)
    ensures
        r@ == norm(path@),
{
    let v = chars_of(path);
    let n = norm_chars(&v);
    string_of(&n)
}

} // verus!
