//! Project configuration (`.p4lsp.json`) and the resolution of its paths.
use vstd::prelude::*;
use crate::strings::{chars_of, concat_str, owned, string_from_chars};

verus! {

/// The name of the configuration file.
pub const CONFIG_FILE_NAME: &'static str = ".p4lsp.json";

/// Root configuration structure of `.p4lsp.json`.
#[derive(Debug)]
pub struct ProjectConfig {
    /// Config file version (currently 1).
    pub version: u32,
    /// Additional include paths, relative to the workspace root or absolute.
    pub include_paths: Vec<String>,
    /// Explicit targets; each names a root P4 file compiled as a program.
    pub targets: Vec<TargetConfig>,
}

/// The version a configuration file has when it names none.
pub fn default_version() -> (v: u32)
    ensures
        v == 1,
{
    1
}

/// A compilation target definition.
#[derive(Debug)]
pub struct TargetConfig {
    /// Human-readable name (may be empty).
    pub name: String,
    /// Path to the root P4 file, relative to the workspace root or absolute.
    pub root: String,
    /// Target-specific include paths, in addition to the global ones.
    pub include_paths: Vec<String>,
}

/// A configuration whose paths are resolved against the workspace root.
#[derive(Debug)]
pub struct ResolvedConfig {
    pub include_paths: Vec<String>,
    pub targets: Vec<ResolvedTarget>,
}

/// A target whose paths are resolved.
#[derive(Debug)]
pub struct ResolvedTarget {
    pub name: String,
    pub root: String,
    pub include_paths: Vec<String>,
}

impl Default for ProjectConfig {
    fn default() -> (c: Self)
        ensures
            c.version == 0,
            c.include_paths@.len() == 0,
            c.targets@.len() == 0,
    {
        ProjectConfig { version: 0, include_paths: Vec::new(), targets: Vec::new() }
    }
}

impl Default for ResolvedConfig {
    fn default() -> (c: Self)
        ensures
            c.include_paths@.len() == 0,
            c.targets@.len() == 0,
    {
        ResolvedConfig { include_paths: Vec::new(), targets: Vec::new() }
    }
}

/// A path that starts at the file system root.
pub open spec fn is_absolute_path(p: Seq<char>) -> bool {
    p.len() > 0 && p[0] == '/'
}

/// `base` joined with the relative path `p`, with one separator between them
/// unless `base` is empty or already ends with one.
pub open spec fn join_path(base: Seq<char>, p: Seq<char>) -> Seq<char> {
    if base.len() > 0 && base.last() != '/' {
        base + seq!['/'] + p
    } else {
        base + p
    }
}

/// An absolute path as it is, a relative one joined onto `base`.
pub open spec fn resolved_path(base: Seq<char>, p: Seq<char>) -> Seq<char> {
    if is_absolute_path(p) {
        p
    } else {
        join_path(base, p)
    }
}

/// The last index of `c` in `s`, or -1.
pub open spec fn last_index_of(s: Seq<char>, c: char) -> int
    decreases s.len(),
{
    if s.len() == 0 {
        -1
    } else if s.last() == c {
        s.len() - 1
    } else {
        last_index_of(s.drop_last(), c)
    }
}

/// The last component of a path that names a file or directory: trailing
/// separators and `.` components are skipped, and there is none when the
/// path ends in `..` or has no such component.
pub open spec fn file_name(p: Seq<char>) -> Option<Seq<char>>
    decreases p.len(),
{
    if p.len() == 0 {
        None
    } else {
        let i = last_index_of(p, '/');
        let seg = p.skip(i + 1);
        if seg.len() == 0 || seg == seq!['.'] {
            if i < 0 {
                None
            } else {
                proof {
                    lemma_last_index_of(p, '/');
                }
                file_name(p.take(i))
            }
        } else if seg == seq!['.', '.'] {
            None
        } else {
            Some(seg)
        }
    }
}

/// A file name without its extension: the part before the last dot, unless
/// that dot is the first character.
pub open spec fn stem_of(name: Seq<char>) -> Seq<char> {
    let j = last_index_of(name, '.');
    if j <= 0 {
        name
    } else {
        name.take(j)
    }
}

/// The stem of the last component of a path.
pub open spec fn file_stem(p: Seq<char>) -> Option<Seq<char>> {
    match file_name(p) {
        Some(n) => Some(stem_of(n)),
        None => None,
    }
}

pub proof fn lemma_last_index_of(s: Seq<char>, c: char)
    ensures
        -1 <= last_index_of(s, c) < s.len(),
        last_index_of(s, c) >= 0 ==> s[last_index_of(s, c)] == c,
        forall|k: int| last_index_of(s, c) < k < s.len() ==> s[k] != c,
    decreases s.len(),
{
    if s.len() > 0 && s.last() != c {
        let t = s.drop_last();
        lemma_last_index_of(t, c);
        assert forall|k: int| last_index_of(s, c) < k < s.len() implies s[k] != c by {
            if k < t.len() {
                assert(t[k] == s[k]);
            }
        }
    }
}

/// The last index of `c` among the first `end` characters, or `end` when
/// there is none.
fn scan_last(chars: &Vec<char>, end: usize, c: char) -> (r: usize)
    requires
        end <= chars.len(),
    ensures
        r <= end,
        r == end <==> last_index_of(chars@.take(end as int), c) == -1,
        r < end ==> r == last_index_of(chars@.take(end as int), c),
{
    let ghost s = chars@.take(end as int);
    let mut i = end;
    while i > 0
        invariant
            i <= end <= chars.len(),
            s == chars@.take(end as int),
            last_index_of(s, c) == last_index_of(chars@.take(i as int), c),
        ensures
            i <= end,
            last_index_of(s, c) == last_index_of(chars@.take(i as int), c),
            i == 0 || chars@[i - 1] == c,
        decreases i,
    {
        if chars[i - 1] == c {
            break;
        }
        assert(chars@.take(i as int).drop_last() =~= chars@.take(i as int - 1));
        i -= 1;
    }
    if i == 0 {
        end
    } else {
        i - 1
    }
}

/// The bounds of the last component of the path `chars`, as `file_name`
/// defines it.
fn file_name_bounds(chars: &Vec<char>) -> (r: Option<(usize, usize)>)
    ensures
        match r {
            Some((a, b)) => a < b <= chars.len() && file_name(chars@) == Some(
                chars@.subrange(a as int, b as int),
            ),
            None => file_name(chars@) is None,
        },
{
    let ghost p = chars@;
    let mut end = chars.len();
    assert(p.take(end as int) =~= p);
    while end > 0
        invariant
            end <= chars.len(),
            p == chars@,
            file_name(p.take(end as int)) == file_name(p),
        ensures
            end == 0,
            file_name(p) is None,
        decreases end,
    {
        let ghost q = p.take(end as int);
        let slash = scan_last(chars, end, '/');
        let seg_start = if slash == end {
            0
        } else {
            slash + 1
        };
        proof {
            lemma_last_index_of(q, '/');
        }
        let ghost t = p.subrange(seg_start as int, end as int);
        assert(q.skip(last_index_of(q, '/') + 1) =~= t);
        let seg_len = end - seg_start;
        if seg_len == 0 || (seg_len == 1 && chars[seg_start] == '.') {
            assert(seg_len == 1 ==> t =~= seq!['.']);
            if slash == end {
                end = 0;
                break;
            }
            assert(q.take(slash as int) =~= p.take(slash as int));
            end = slash;
        } else if seg_len == 2 && chars[seg_start] == '.' && chars[seg_start + 1] == '.' {
            assert(t =~= seq!['.', '.']);
            end = 0;
            break;
        } else {
            assert(t.len() == seg_len);
            assert(t != seq!['.']) by {
                if t.len() == 1 {
                    assert(t[0] == chars@[seg_start as int]);
                    assert(seq!['.'][0] == '.');
                }
            }
            assert(t != seq!['.', '.']) by {
                if t.len() == 2 {
                    assert(t[0] == chars@[seg_start as int]);
                    assert(t[1] == chars@[seg_start + 1]);
                    assert(seq!['.', '.'][0] == '.');
                    assert(seq!['.', '.'][1] == '.');
                }
            }
            return Some((seg_start, end));
        }
    }
    None
}

/// The stem of the last component of `path`.
pub fn path_file_stem(path: &str) -> (r: Option<String>)
    ensures
        match r {
            Some(s) => file_stem(path@) == Some(s@),
            None => file_stem(path@) is None,
        },
{
    let chars = chars_of(path);
    let ghost p = chars@;
    let (name_start, end) = match file_name_bounds(&chars) {
        None => return None,
        Some(b) => b,
    };
    let ghost name = p.subrange(name_start as int, end as int);
    let dot = scan_last(&chars, end, '.');
    proof {
        lemma_last_index_of(p.take(end as int), '.');
        if dot < end && dot >= name_start {
            assert(name[dot - name_start] == p.take(end as int)[dot as int]);
            assert forall|k: int| dot - name_start < k < name.len() implies name[k] != '.' by {
                assert(name[k] == p.take(end as int)[name_start + k]);
            }
            lemma_last_index_unique(name, '.', dot - name_start);
            assert(name.take(dot - name_start) =~= p.subrange(name_start as int, dot as int));
        } else {
            assert forall|k: int| 0 <= k < name.len() implies name[k] != '.' by {
                assert(name[k] == p.take(end as int)[name_start + k]);
            }
            lemma_last_index_none(name, '.');
        }
    }
    if dot < end && dot > name_start {
        Some(string_from_chars(&chars.as_slice()[name_start..dot]))
    } else {
        Some(string_from_chars(&chars.as_slice()[name_start..end]))
    }
}

proof fn lemma_last_index_unique(s: Seq<char>, c: char, j: int)
    requires
        0 <= j < s.len(),
        s[j] == c,
        forall|k: int| j < k < s.len() ==> s[k] != c,
    ensures
        last_index_of(s, c) == j,
    decreases s.len(),
{
    if s.len() - 1 != j {
        lemma_last_index_unique(s.drop_last(), c, j);
    }
}

proof fn lemma_last_index_none(s: Seq<char>, c: char)
    requires
        forall|k: int| 0 <= k < s.len() ==> s[k] != c,
    ensures
        last_index_of(s, c) == -1,
    decreases s.len(),
{
    if s.len() > 0 {
        lemma_last_index_none(s.drop_last(), c);
    }
}

/// A source file of the language: its name has the extension `p4`.
pub open spec fn is_p4_path(p: Seq<char>) -> bool {
    match file_name(p) {
        Some(n) => {
            let j = last_index_of(n, '.');
            j > 0 && n.skip(j + 1) == seq!['p', '4']
        },
        None => false,
    }
}

/// Whether `path` names a P4 source file (its extension is `p4`).
pub fn is_p4_source(path: &str) -> (r: bool)
    ensures
        r == is_p4_path(path@),
{
    let chars = chars_of(path);
    let ghost p = chars@;
    let (name_start, end) = match file_name_bounds(&chars) {
        None => return false,
        Some(b) => b,
    };
    let ghost name = p.subrange(name_start as int, end as int);
    let dot = scan_last(&chars, end, '.');
    proof {
        lemma_last_index_of(p.take(end as int), '.');
        if dot < end && dot >= name_start {
            assert(name[dot - name_start] == p.take(end as int)[dot as int]);
            assert forall|k: int| dot - name_start < k < name.len() implies name[k] != '.' by {
                assert(name[k] == p.take(end as int)[name_start + k]);
            }
            lemma_last_index_unique(name, '.', dot - name_start);
        } else {
            assert forall|k: int| 0 <= k < name.len() implies name[k] != '.' by {
                assert(name[k] == p.take(end as int)[name_start + k]);
            }
            lemma_last_index_none(name, '.');
        }
    }
    if dot < end && dot > name_start {
        let ghost ext = name.skip(dot - name_start + 1);
        assert(ext =~= p.subrange(dot + 1, end as int));
        let r = end - dot == 3 && chars[dot + 1] == 'p' && chars[dot + 2] == '4';
        assert(r ==> ext =~= seq!['p', '4']);
        assert(ext =~= seq!['p', '4'] ==> r) by {
            if ext =~= seq!['p', '4'] {
                assert(ext[0] == chars@[dot + 1]);
                assert(ext[1] == chars@[dot + 2]);
            }
        }
        r
    } else {
        false
    }
}

/// The end of the path piece that starts at `i`: the next separator, or the
/// end of the path.
pub open spec fn seg_end(s: Seq<char>, i: int) -> int
    decreases s.len() - i,
{
    if i < 0 || i >= s.len() || s[i] == '/' {
        i
    } else {
        seg_end(s, i + 1)
    }
}

pub proof fn lemma_seg_end(s: Seq<char>, i: int)
    requires
        0 <= i <= s.len(),
    ensures
        i <= seg_end(s, i) <= s.len(),
        seg_end(s, i) < s.len() ==> s[seg_end(s, i)] == '/',
    decreases s.len() - i,
{
    if i < s.len() && s[i] != '/' {
        lemma_seg_end(s, i + 1);
    }
}

/// The named parts of a path from index `i` on: the pieces between
/// separators, leaving out empty pieces and `.`.
pub open spec fn path_parts_from(s: Seq<char>, i: int) -> Seq<Seq<char>>
    decreases s.len() - i + 1,
{
    if i < 0 || i >= s.len() {
        seq![]
    } else {
        let j = seg_end(s, i);
        let seg = s.subrange(i, j);
        if seg.len() == 0 || seg == seq!['.'] {
            proof {
                lemma_seg_end(s, i);
            }
            path_parts_from(s, j + 1)
        } else {
            proof {
                lemma_seg_end(s, i);
            }
            seq![seg] + path_parts_from(s, j + 1)
        }
    }
}

/// What `Path` compares two paths by (its components on Unix): whether the
/// path starts at the root, whether it starts with a `.` component, and its
/// other parts. Repeated separators, a trailing separator and `.` parts
/// after the start do not count.
pub open spec fn path_key(s: Seq<char>) -> (bool, bool, Seq<Seq<char>>) {
    let root = s.len() > 0 && s[0] == '/';
    let cur = !root && s.len() > 0 && s[0] == '.' && (s.len() == 1 || s[1] == '/');
    (root, cur, path_parts_from(s, 0))
}

/// The texts of a list of character vectors.
pub open spec fn char_seqs(v: Seq<Vec<char>>) -> Seq<Seq<char>> {
    v.map_values(|x: Vec<char>| x@)
}

/// The named parts of the path `v`.
fn path_parts(v: &Vec<char>) -> (r: Vec<Vec<char>>)
    ensures
        char_seqs(r@) == path_parts_from(v@, 0),
{
    let ghost s = v@;
    let mut out: Vec<Vec<char>> = Vec::new();
    let mut i: usize = 0;
    assert(char_seqs(out@) =~= Seq::<Seq<char>>::empty());
    while i < v.len()
        invariant
            i <= v@.len(),
            s == v@,
            char_seqs(out@) + path_parts_from(s, i as int) == path_parts_from(s, 0),
        decreases v@.len() - i,
    {
        let mut j = i;
        while j < v.len() && v[j] != '/'
            invariant
                i <= j <= v@.len(),
                s == v@,
                seg_end(s, j as int) == seg_end(s, i as int),
            decreases v@.len() - j,
        {
            j += 1;
        }
        assert(seg_end(s, j as int) == j);
        let ghost prev = out@;
        let ghost seg = s.subrange(i as int, j as int);
        let skip = j == i || (j == i + 1 && v[i] == '.');
        assert(skip == (seg.len() == 0 || seg == seq!['.'])) by {
            if seg == seq!['.'] {
                assert(seq!['.'].len() == 1);
                assert(seq!['.'][0] == '.');
                assert(seg.len() == 1);
                assert(j == i + 1);
                assert(seg[0] == s[i as int]);
            }
            if j == i + 1 && s[i as int] == '.' {
                assert(seg =~= seq!['.']);
            }
        }
        if !skip {
            let part = crate::includes::sub_chars(v, i, j);
            out.push(part);
            assert(char_seqs(out@) =~= char_seqs(prev).push(seg));
        }
        let ghost rest = path_parts_from(s, j + 1);
        assert(path_parts_from(s, i as int) == if skip {
            rest
        } else {
            seq![seg] + rest
        });
        if j < v.len() {
            assert(char_seqs(out@) + path_parts_from(s, j + 1) =~= char_seqs(prev) + path_parts_from(s, i as int));
            i = j + 1;
        } else {
            assert(path_parts_from(s, j + 1) =~= Seq::<Seq<char>>::empty());
            assert(path_parts_from(s, j as int) =~= Seq::<Seq<char>>::empty());
            assert(char_seqs(out@) + path_parts_from(s, j as int) =~= char_seqs(prev) + path_parts_from(s, i as int));
            i = j;
        }
    }
    assert(path_parts_from(s, i as int) =~= Seq::<Seq<char>>::empty());
    assert(char_seqs(out@) =~= char_seqs(out@) + path_parts_from(s, i as int));
    out
}

/// Whether two character vectors hold the same characters.
fn same_chars(a: &Vec<char>, b: &Vec<char>) -> (r: bool)
    ensures
        r == (a@ == b@),
{
    if a.len() != b.len() {
        return false;
    }
    let mut i: usize = 0;
    while i < a.len()
        invariant
            i <= a@.len(),
            a@.len() == b@.len(),
            forall|k: int| 0 <= k < i ==> a@[k] == b@[k],
        decreases a@.len() - i,
    {
        if a[i] != b[i] {
            return false;
        }
        i += 1;
    }
    assert(a@ =~= b@);
    true
}

/// Whether `a` and `b` are the same path, as `Path` compares paths.
pub fn same_path(a: &str, b: &str) -> (r: bool)
    ensures
        r == (path_key(a@) == path_key(b@)),
{
    let x = chars_of(a);
    let y = chars_of(b);
    let xr = x.len() > 0 && x[0] == '/';
    let yr = y.len() > 0 && y[0] == '/';
    let xc = !xr && x.len() > 0 && x[0] == '.' && (x.len() == 1 || x[1] == '/');
    let yc = !yr && y.len() > 0 && y[0] == '.' && (y.len() == 1 || y[1] == '/');
    if xr != yr || xc != yc {
        return false;
    }
    let xp = path_parts(&x);
    let yp = path_parts(&y);
    if xp.len() != yp.len() {
        assert(char_seqs(xp@).len() != char_seqs(yp@).len());
        return false;
    }
    let mut i: usize = 0;
    while i < xp.len()
        invariant
            i <= xp@.len(),
            xp@.len() == yp@.len(),
            x@ == a@,
            y@ == b@,
            char_seqs(xp@) == path_parts_from(x@, 0),
            char_seqs(yp@) == path_parts_from(y@, 0),
            path_key(a@).0 == path_key(b@).0,
            path_key(a@).1 == path_key(b@).1,
            forall|k: int| 0 <= k < i ==> char_seqs(xp@)[k] == char_seqs(yp@)[k],
        decreases xp@.len() - i,
    {
        if !same_chars(&xp[i], &yp[i]) {
            assert(char_seqs(xp@)[i as int] != char_seqs(yp@)[i as int]);
            return false;
        }
        i += 1;
    }
    assert(char_seqs(xp@) =~= char_seqs(yp@));
    true
}

/// `path` resolved against `base`: kept when absolute, joined onto `base`
/// otherwise.
pub fn resolve_path(base: &str, path: &str) -> (r: String)
    ensures
        r@ == resolved_path(base@, path@),
{
    let p = chars_of(path);
    if p.len() > 0 && p[0] == '/' {
        return owned(path);
    }
    let b = chars_of(base);
    if b.len() > 0 && b[b.len() - 1] != '/' {
        let mut r = concat_str(base, "/");
        r.append(path);
        proof {
            reveal_strlit("/");
        }
        assert(r@ =~= base@ + seq!['/'] + path@);
        r
    } else {
        concat_str(base, path)
    }
}

/// Law: resolving keeps an absolute path as it is and puts a relative one
/// under the base: the base, a separator unless the base is empty or ends
/// with one, then the path.
pub proof fn law_resolved_path(base: Seq<char>, p: Seq<char>)
    ensures
        is_absolute_path(p) ==> resolved_path(base, p) == p,
        !is_absolute_path(p) ==> resolved_path(base, p).take(base.len() as int) == base,
        !is_absolute_path(p) ==> resolved_path(base, p).skip(resolved_path(base, p).len() - p.len()) == p,
        !is_absolute_path(p) && base.len() > 0 && base.last() != '/' ==> resolved_path(base, p)[base.len() as int]
            == '/',
{
    if !is_absolute_path(p) {
        let r = resolved_path(base, p);
        assert(r.take(base.len() as int) =~= base);
        assert(r.skip(r.len() - p.len()) =~= p);
    }
}

/// The texts of a list of strings.
pub open spec fn texts(v: Seq<String>) -> Seq<Seq<char>> {
    v.map_values(|s: String| s@)
}

/// Each path resolved against `base`.
pub open spec fn resolve_all(base: Seq<char>, paths: Seq<String>) -> Seq<Seq<char>> {
    paths.map_values(|p: String| resolved_path(base, p@))
}

/// The display name of a target: its own name, or else the stem of its root
/// file, or else `unnamed`.
pub open spec fn target_name(name: Seq<char>, root: Seq<char>) -> Seq<char> {
    if name.len() > 0 {
        name
    } else {
        match file_stem(root) {
            Some(s) => s,
            None => "unnamed"@,
        }
    }
}

/// A resolved target is `t` with its name filled in and its paths resolved
/// against `base`.
pub open spec fn target_resolved(r: ResolvedTarget, t: TargetConfig, base: Seq<char>) -> bool {
    &&& r.name@ == target_name(t.name@, t.root@)
    &&& r.root@ == resolved_path(base, t.root@)
    &&& texts(r.include_paths@) == resolve_all(base, t.include_paths@)
}

/// A resolved configuration is `c` with every path resolved against `base`
/// and every target named.
pub open spec fn config_resolved(r: ResolvedConfig, c: ProjectConfig, base: Seq<char>) -> bool {
    &&& texts(r.include_paths@) == resolve_all(base, c.include_paths@)
    &&& r.targets@.len() == c.targets@.len()
    &&& forall|i: int|
        0 <= i < r.targets@.len() ==> target_resolved(#[trigger] r.targets@[i], c.targets@[i], base)
}

/// Each path of `paths` resolved against `base`.
fn resolve_paths(base: &str, paths: &Vec<String>) -> (r: Vec<String>)
    ensures
        texts(r@) == resolve_all(base@, paths@),
{
    let mut out: Vec<String> = Vec::new();
    let mut i: usize = 0;
    while i < paths.len()
        invariant
            i <= paths.len(),
            texts(out@) =~= resolve_all(base@, paths@).take(i as int),
        decreases paths.len() - i,
    {
        let r = resolve_path(base, paths[i].as_str());
        let ghost prev = out@;
        out.push(r);
        assert(texts(out@) =~= texts(prev).push(r@));
        assert(resolve_all(base@, paths@).take(i as int + 1) =~= resolve_all(base@, paths@).take(
            i as int,
        ).push(resolved_path(base@, paths@[i as int]@)));
        i += 1;
    }
    assert(resolve_all(base@, paths@).take(paths.len() as int) =~= resolve_all(base@, paths@));
    out
}

impl ProjectConfig {
    /// Resolves all relative paths against the workspace root, and names
    /// each unnamed target after the stem of its root file.
    pub fn resolve(&self, workspace_root: &str) -> (r: ResolvedConfig)
        ensures
            config_resolved(r, *self, workspace_root@),
    {
        let include_paths = resolve_paths(workspace_root, &self.include_paths);
        let mut targets: Vec<ResolvedTarget> = Vec::new();
        let mut i: usize = 0;
        while i < self.targets.len()
            invariant
                i <= self.targets.len(),
                targets@.len() == i,
                forall|j: int|
                    0 <= j < i ==> target_resolved(
                        #[trigger] targets@[j],
                        self.targets@[j],
                        workspace_root@,
                    ),
            decreases self.targets.len() - i,
        {
            let t = &self.targets[i];
            let name = if t.name.as_str().is_empty() {
                match path_file_stem(t.root.as_str()) {
                    Some(s) => s,
                    None => owned("unnamed"),
                }
            } else {
                t.name.clone()
            };
            let root = resolve_path(workspace_root, t.root.as_str());
            let paths = resolve_paths(workspace_root, &t.include_paths);
            targets.push(ResolvedTarget { name, root, include_paths: paths });
            i += 1;
        }
        ResolvedConfig { include_paths, targets }
    }

    /// Where the configuration file of directory `dir` is.
    pub fn config_path(dir: &str) -> (r: String)
        ensures
            r@ == join_path(dir@, CONFIG_FILE_NAME@),
    {
        proof {
            reveal_strlit(".p4lsp.json");
        }
        resolve_path(dir, CONFIG_FILE_NAME)
    }
}

} // verus!
