//! Relative paths inside a tenant's workspace, with the component rules of
//! `std::path` on Unix (separator `/`; empty and `.` components dropped).
use vstd::prelude::*;
use crate::text::{chars_of, lemma_scan_char, scan_char, scan_char_from, slice_chars, string_from_chars, concat3};

verus! {

/// Net depth reached after walking the components of `s` that start at `i`,
/// from depth `depth`, or `None` when a `..` climbs above the starting point.
pub open spec fn walk_depth(s: Seq<char>, i: int, depth: int) -> Option<int>
    decreases s.len() - i,
{
    if i < 0 || i > s.len() {
        Some(depth)
    } else {
        proof {
            lemma_scan_char(s, '/', i);
        }
        let e = scan_char(s, '/', i);
        let seg = s.subrange(i, e);
        let d = if seg == seq!['.', '.'] {
            depth - 1
        } else if seg.len() == 0 || seg == seq!['.'] {
            depth
        } else {
            depth + 1
        };
        if d < 0 {
            None
        } else if e >= s.len() {
            Some(d)
        } else {
            walk_depth(s, e + 1, d)
        }
    }
}

/// A path that stays inside the directory it is taken from: it is relative,
/// and no `..` leads above its starting point.
pub open spec fn stays_inside(s: Seq<char>) -> bool {
    &&& !(s.len() > 0 && s[0] == '/')
    &&& walk_depth(s, 0, 0) is Some
}

fn segment_kind(s: &[char], i: usize, e: usize) -> (k: u8)
    requires
        i <= e <= s@.len(),
    ensures
        k == 0 <==> s@.subrange(i as int, e as int) == seq!['.', '.'],
        k == 1 <==> (s@.subrange(i as int, e as int).len() == 0 || s@.subrange(i as int, e as int)
            == seq!['.']),
        k <= 2,
{
    let n = e - i;
    let ghost seg = s@.subrange(i as int, e as int);
    assert(seg.len() == n);
    assert(n >= 1 ==> seg[0] == s@[i as int]);
    assert(n >= 2 ==> seg[1] == s@[i + 1]);
    if n == 2 && s[i] == '.' && s[i + 1] == '.' {
        assert(seg =~= seq!['.', '.']);
        0
    } else if n == 0 || (n == 1 && s[i] == '.') {
        if n == 1 {
            assert(seg =~= seq!['.']);
        }
        1
    } else {
        proof {
            if seg == seq!['.', '.'] {
                assert(seg[0] == '.' && seg[1] == '.');
            }
            if seg == seq!['.'] {
                assert(seg[0] == '.');
            }
        }
        2
    }
}

/// Security audit of a workspace path: it must be relative and must not
/// leave the workspace through `..`.
pub fn is_safe_path(_tenant_id: &str, path_str: &str) -> (b: bool)
    ensures
        b == stays_inside(path_str@),
{
    let s = chars_of(path_str);
    if s.len() > 0 && s[0] == '/' {
        return false;
    }
    let mut i: usize = 0;
    let mut depth: usize = 0;
    loop
        invariant
            s@ == path_str@,
            i <= s@.len(),
            depth <= i,
            walk_depth(s@, 0, 0) == walk_depth(s@, i as int, depth as int),
            !(s@.len() > 0 && s@[0] == '/'),
        decreases s@.len() - i,
    {
        let e = scan_char_from(&s, '/', i);
        let k = segment_kind(&s, i, e);
        proof {
            lemma_scan_char(s@, '/', i as int);
        }
        if k == 0 {
            if depth == 0 {
                return false;
            }
            depth = depth - 1;
        } else if k == 2 {
            depth = depth + 1;
        }
        if e >= s.len() {
            return true;
        }
        i = e + 1;
    }
}

/// `Path::join` on Unix for a base that is not empty and does not end with
/// `/`: an absolute `rel` replaces the base, any other is appended after a `/`.
pub open spec fn joined(base: Seq<char>, rel: Seq<char>) -> Seq<char> {
    if rel.len() > 0 && rel[0] == '/' {
        rel
    } else {
        base + seq!['/'] + rel
    }
}

pub fn join_path(base: &str, rel: &str) -> (r: String)
    ensures
        r@ == joined(base@, rel@),
{
    let rc = chars_of(rel);
    if rc.len() > 0 && rc[0] == '/' {
        return string_from_chars(&rc);
    }
    proof {
        reveal_strlit("/");
    }
    concat3(base, "/", rel)
}

/// The workspace directory of a tenant.
pub open spec fn tenant_workspace(tenant_id: Seq<char>) -> Seq<char> {
    "./users/"@ + tenant_id + "/workspace"@
}

pub fn tenant_workspace_path(tenant_id: &str) -> (r: String)
    ensures
        r@ == tenant_workspace(tenant_id@),
{
    concat3("./users/", tenant_id, "/workspace")
}

/// `uri` without a leading `file://`.
pub open spec fn without_file_scheme(uri: Seq<char>) -> Seq<char> {
    let scheme = "file://"@;
    if uri.len() >= scheme.len() && uri.subrange(0, scheme.len() as int) == scheme {
        uri.subrange(scheme.len() as int, uri.len() as int)
    } else {
        uri
    }
}

pub fn strip_file_scheme(uri: &str) -> (r: String)
    ensures
        r@ == without_file_scheme(uri@),
{
    let u = chars_of(uri);
    let scheme = chars_of("file://");
    if crate::text::chars_start_with(&u, &scheme) {
        string_from_chars(&slice_chars(&u, scheme.len(), u.len()))
    } else {
        string_from_chars(&u)
    }
}

/// The last component of a path when it is a name (`Path::file_name`).
pub open spec fn file_name(s: Seq<char>) -> Option<Seq<char>>
    decreases s.len(),
{
    if s.len() == 0 {
        None
    } else if s.last() == '/' {
        file_name(s.drop_last())
    } else {
        proof {
            lemma_last_slash_end_bound(s, s.len() as int);
        }
        let start = last_slash_end(s, s.len() as int);
        let name = s.subrange(start, s.len() as int);
        if name == seq!['.'] {
            file_name(s.subrange(0, start))
        } else if name == seq!['.', '.'] {
            None
        } else {
            Some(name)
        }
    }
}

/// One past the last `/` before position `j` (0 when there is none).
pub open spec fn last_slash_end(s: Seq<char>, j: int) -> int
    decreases j,
{
    if j <= 0 || j > s.len() {
        0
    } else if s[j - 1] == '/' {
        j
    } else {
        last_slash_end(s, j - 1)
    }
}

/// The stem of a file name (`Path::file_stem`): the name without its last
/// extension; a name whose only dot leads it, and `..`, are kept whole.
pub open spec fn stem_of(name: Seq<char>) -> Seq<char> {
    let d = last_dot(name, name.len() as int);
    if d <= 1 {
        name
    } else {
        name.subrange(0, d - 1)
    }
}

/// One past the last `.` before position `j` (0 when there is none).
pub open spec fn last_dot(s: Seq<char>, j: int) -> int
    decreases j,
{
    if j <= 0 || j > s.len() {
        0
    } else if s[j - 1] == '.' {
        j
    } else {
        last_dot(s, j - 1)
    }
}

pub open spec fn file_stem(s: Seq<char>) -> Option<Seq<char>> {
    match file_name(s) {
        Some(n) => Some(stem_of(n)),
        None => None,
    }
}

fn last_slash_end_exec(s: &[char], j: usize) -> (r: usize)
    requires
        j <= s@.len(),
    ensures
        r as int == last_slash_end(s@, j as int),
        r <= j,
{
    let mut k = j;
    while k > 0 && s[k - 1] != '/'
        invariant
            k <= j <= s@.len(),
            last_slash_end(s@, j as int) == last_slash_end(s@, k as int),
        decreases k,
    {
        k = k - 1;
    }
    k
}

fn last_dot_exec(s: &[char], j: usize) -> (r: usize)
    requires
        j <= s@.len(),
    ensures
        r as int == last_dot(s@, j as int),
        r <= j,
{
    let mut k = j;
    while k > 0 && s[k - 1] != '.'
        invariant
            k <= j <= s@.len(),
            last_dot(s@, j as int) == last_dot(s@, k as int),
        decreases k,
    {
        k = k - 1;
    }
    k
}

/// The stem of the file a path names (`Path::file_stem`).
pub fn path_file_stem(path: &str) -> (r: Option<String>)
    ensures
        r matches Some(n) ==> file_stem(path@) == Some(n@),
        r is None <==> file_stem(path@) is None,
{
    let all = chars_of(path);
    let mut end = all.len();
    assert(all@.subrange(0, end as int) =~= all@);
    loop
        invariant
            all@ == path@,
            end <= all@.len(),
            file_name(all@) == file_name(all@.subrange(0, end as int)),
        decreases end,
    {
        let ghost cur = all@.subrange(0, end as int);
        if end == 0 {
            return None;
        }
        if all[end - 1] == '/' {
            assert(cur.drop_last() =~= all@.subrange(0, end - 1));
            end = end - 1;
        } else {
            let start = last_slash_end_exec(&all, end);
            proof {
                assert forall|j: int| 0 <= j <= end implies last_slash_end(cur, j) == last_slash_end(all@, j) by {
                    lemma_last_slash_end_prefix(all@, end as int, j);
                }
            }
            let n = end - start;
            if n == 1 && all[start] == '.' {
                assert(cur.subrange(start as int, end as int) =~= seq!['.']);
                assert(cur.subrange(0, start as int) =~= all@.subrange(0, start as int));
                end = start;
            } else if n == 2 && all[start] == '.' && all[start + 1] == '.' {
                assert(cur.subrange(start as int, end as int) =~= seq!['.', '.']);
                return None;
            } else {
                let name = slice_chars(&all, start, end);
                assert(name@ =~= cur.subrange(start as int, end as int));
                proof {
                    if name@ == seq!['.'] {
                        assert(name@[0] == '.');
                    }
                    if name@ == seq!['.', '.'] {
                        assert(name@[0] == '.' && name@[1] == '.');
                    }
                }
                let d = last_dot_exec(&name, name.len());
                if d == 0 || d == 1 {
                    return Some(string_from_chars(&name));
                }
                return Some(string_from_chars(&slice_chars(&name, 0, d - 1)));
            }
        }
    }
}

pub proof fn lemma_last_slash_end_bound(s: Seq<char>, j: int)
    ensures
        0 <= last_slash_end(s, j),
        0 <= j <= s.len() ==> last_slash_end(s, j) <= j,
        0 < j <= s.len() && s[j - 1] != '/' ==> last_slash_end(s, j) < j,
    decreases j,
{
    if 0 < j <= s.len() && s[j - 1] != '/' {
        lemma_last_slash_end_bound(s, j - 1);
    }
}

proof fn lemma_last_slash_end_prefix(s: Seq<char>, end: int, j: int)
    requires
        0 <= j <= end <= s.len(),
    ensures
        last_slash_end(s.subrange(0, end), j) == last_slash_end(s, j),
    decreases j,
{
    if j > 0 {
        lemma_last_slash_end_prefix(s, end, j - 1);
    }
}


/// A path that passes the audit is resolved under the tenant's own
/// workspace: joining keeps the workspace root and a separator in front of
/// it, and no `..` in it leads above that root.
pub proof fn law_audited_path_stays_in_workspace(tenant_id: Seq<char>, path: Seq<char>)
    requires
        stays_inside(path),
    ensures
        joined(tenant_workspace(tenant_id), path) == tenant_workspace(tenant_id) + seq!['/'] + path,
        walk_depth(path, 0, 0) matches Some(d) && d >= 0,
{
    lemma_walk_depth_nonnegative(path, 0, 0);
}

/// The `/`-separated components of `s` from position `i` on, empty ones
/// included.
pub open spec fn components_from(s: Seq<char>, i: int) -> Seq<Seq<char>>
    decreases s.len() - i,
{
    if i < 0 || i > s.len() {
        Seq::empty()
    } else {
        proof {
            lemma_scan_char(s, '/', i);
        }
        let e = scan_char(s, '/', i);
        let seg = s.subrange(i, e);
        if e >= s.len() {
            seq![seg]
        } else {
            seq![seg] + components_from(s, e + 1)
        }
    }
}

/// A `..` component.
pub open spec fn is_parent_dir(c: Seq<char>) -> bool {
    c == seq!['.', '.']
}

/// A named component: neither empty, `.` nor `..`.
pub open spec fn is_normal(c: Seq<char>) -> bool {
    c.len() > 0 && c != seq!['.'] && !is_parent_dir(c)
}

/// How many `..` components there are.
pub open spec fn parent_count(cs: Seq<Seq<char>>) -> int
    decreases cs.len(),
{
    if cs.len() == 0 {
        0
    } else {
        (if is_parent_dir(cs[0]) { 1int } else { 0int }) + parent_count(cs.drop_first())
    }
}

/// How many named components there are.
pub open spec fn normal_count(cs: Seq<Seq<char>>) -> int
    decreases cs.len(),
{
    if cs.len() == 0 {
        0
    } else {
        (if is_normal(cs[0]) { 1int } else { 0int }) + normal_count(cs.drop_first())
    }
}

/// No leading run of the components climbs: in each, the `..` are no more
/// than the named components.
pub open spec fn never_climbs(cs: Seq<Seq<char>>) -> bool {
    forall|k: int| 1 <= k <= cs.len() ==> parent_count(cs.take(k)) <= normal_count(#[trigger] cs.take(k))
}

proof fn lemma_walk_depth_components(s: Seq<char>, i: int, d: int)
    requires
        0 <= i <= s.len(),
        d >= 0,
    ensures
        walk_depth(s, i, d) is Some <==> forall|k: int|
            1 <= k <= components_from(s, i).len() ==> d + normal_count(
                #[trigger] components_from(s, i).take(k),
            ) - parent_count(components_from(s, i).take(k)) >= 0,
    decreases s.len() - i,
{
    lemma_scan_char(s, '/', i);
    let e = scan_char(s, '/', i);
    let seg = s.subrange(i, e);
    let cs = components_from(s, i);
    let step: int = if is_parent_dir(seg) { -1 } else if is_normal(seg) { 1 } else { 0 };
    let d2 = d + step;
    assert(cs[0] == seg);
    assert forall|k: int| 1 <= k <= cs.len() implies normal_count(#[trigger] cs.take(k)) - parent_count(cs.take(k))
        == step + normal_count(cs.take(k).drop_first()) - parent_count(cs.take(k).drop_first()) by {
        assert(cs.take(k)[0] == seg);
    }
    assert(cs.take(1).drop_first() =~= Seq::<Seq<char>>::empty());
    if e >= s.len() {
        assert(cs.len() == 1);
    } else {
        let rest = components_from(s, e + 1);
        assert(cs == seq![seg] + rest);
        assert forall|k: int| 1 <= k <= cs.len() implies #[trigger] cs.take(k).drop_first() =~= rest.take(k - 1) by {}
        if d2 >= 0 {
            lemma_walk_depth_components(s, e + 1, d2);
            assert forall|k: int| 1 <= k <= rest.len() implies #[trigger] rest.take(k) =~= cs.take(k + 1).drop_first() by {}
        }
    }
}

/// The audit in terms of the components that `std::path` yields: a path
/// passes when it is relative and, in every leading run of its
/// `/`-separated components, the `..` are no more than the named ones
/// (empty and `.` components count for neither). The tenant plays no part.
pub proof fn law_safe_path_by_components(s: Seq<char>)
    ensures
        stays_inside(s) <==> !(s.len() > 0 && s[0] == '/') && never_climbs(components_from(s, 0)),
{
    lemma_walk_depth_components(s, 0, 0);
    let cs = components_from(s, 0);
    assert forall|k: int| 1 <= k <= cs.len() implies (0 + normal_count(#[trigger] cs.take(k)) - parent_count(
        cs.take(k),
    ) >= 0 <==> parent_count(cs.take(k)) <= normal_count(cs.take(k))) by {}
}

proof fn lemma_walk_depth_nonnegative(s: Seq<char>, i: int, depth: int)
    requires
        depth >= 0,
    ensures
        walk_depth(s, i, depth) matches Some(d) ==> d >= 0,
    decreases s.len() - i,
{
    if 0 <= i <= s.len() {
        lemma_scan_char(s, '/', i);
        let e = scan_char(s, '/', i);
        let seg = s.subrange(i, e);
        let d = if seg == seq!['.', '.'] {
            depth - 1
        } else if seg.len() == 0 || seg == seq!['.'] {
            depth
        } else {
            depth + 1
        };
        if d >= 0 && e < s.len() {
            lemma_walk_depth_nonnegative(s, e + 1, d);
        }
    }
}

} // verus!
