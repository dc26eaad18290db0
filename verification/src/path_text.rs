//! Lexical handling of file-system paths held as text.
//!
//! A path is a `/`-separated text. Trailing separators and trailing `/.`
//! components are ignored, so `data/engines/` and `data/engines/.` name the same
//! final component as `data/engines`. The final component is the file name
//! unless it is empty, `.` or `..`. The parent is the text before the final
//! component with such a trailing tail removed; the parent of a lone name is
//! the empty path, and a root or empty path has none.
//! Stem and extension split a file name at its last `.`, where a leading dot
//! does not count.
//! The components of a path are the root or a leading `.`, then one per text
//! between separators other than empty texts and `.`; two paths are the same
//! path when their components are equal.
use vstd::prelude::*;

verus! {

/// True when the text before `end` finishes with a separator or with a `/.`
/// component, either of which does not change what the path names.
pub open spec fn ends_in_redundant_tail(s: Seq<char>, end: int) -> bool {
    1 < end <= s.len() && (s[end - 1] == '/' || (s[end - 1] == '.' && s[end - 2] == '/'))
}

/// End of the text once trailing separators and `/.` components are dropped
/// (a lone leading `/` stays).
pub open spec fn trimmed_end(s: Seq<char>, end: int) -> int
    decreases end,
{
    if ends_in_redundant_tail(s, end) {
        trimmed_end(s, end - 1)
    } else {
        end
    }
}

/// Index of the last `c` strictly before `end`, or -1 when there is none.
pub open spec fn last_index_before(s: Seq<char>, end: int, c: char) -> int
    decreases end,
{
    if end <= 0 {
        -1
    } else if s[end - 1] == c {
        end - 1
    } else {
        last_index_before(s, end - 1, c)
    }
}

/// The index found by `last_index_before` holds the character looked for,
/// and no later index before `end` does.
pub proof fn lemma_last_index_before(s: Seq<char>, end: int, c: char)
    requires
        0 <= end <= s.len(),
    ensures
        -1 <= last_index_before(s, end, c) < end,
        last_index_before(s, end, c) >= 0 ==> s[last_index_before(s, end, c)] == c,
        forall|j: int|
            last_index_before(s, end, c) < j < end && 0 <= j ==> s[j] != c,
    decreases end,
{
    if end > 0 && s[end - 1] != c {
        lemma_last_index_before(s, end - 1, c);
    }
}

/// Scanning backwards over characters other than `c` does not change the
/// index found.
pub proof fn lemma_scan_skips(s: Seq<char>, m: int, end: int, c: char)
    requires
        0 <= m <= end <= s.len(),
        forall|j: int| m <= j < end ==> s[j] != c,
    ensures
        last_index_before(s, end, c) == last_index_before(s, m, c),
    decreases end,
{
    if end > m {
        lemma_scan_skips(s, m, end - 1, c);
    }
}

/// Trimming stops at a character other than a separator, or at the first one.
pub proof fn lemma_trimmed_end(s: Seq<char>, end: int)
    requires
        0 <= end <= s.len(),
    ensures
        trimmed_end(s, end) <= end,
        end >= 1 ==> trimmed_end(s, end) >= 1,
        !ends_in_redundant_tail(s, trimmed_end(s, end)),
        trimmed_end(s, end) == end || ends_in_redundant_tail(s, end),
    decreases end,
{
    if ends_in_redundant_tail(s, end) {
        lemma_trimmed_end(s, end - 1);
    }
}

/// The final component lies inside the text and holds no separator.
pub proof fn lemma_final_component(s: Seq<char>)
    ensures
        0 <= name_start(s) <= name_end(s) <= s.len(),
        forall|j: int| 0 <= j < final_component(s).len() ==> final_component(s)[j] != '/',
{
    lemma_trimmed_end(s, s.len() as int);
    lemma_last_index_before(s, name_end(s), '/');
}

/// A parent is empty, the root, or a text that does not end in a separator.
pub proof fn lemma_parent_shape(s: Seq<char>)
    ensures
        parent_text(s) matches Some(d) ==> (d.len() == 0 || d == seq!['/'] || (d.len() > 0
            && !ends_in_redundant_tail(d, d.len() as int) && d.last() != '/')),
{
    lemma_final_component(s);
    let k = name_start(s) - 1;
    if name_end(s) != 0 && !(name_end(s) == 1 && s[0] == '/') && k > 0 {
        lemma_trimmed_end(s, k);
        let e = trimmed_end(s, k);
        let d = s.subrange(0, e);
        if e == 1 && s[0] == '/' {
            assert(d =~= seq!['/']);
        }
        if e > 1 {
            assert(d[e - 1] == s[e - 1] && d[e - 2] == s[e - 2]);
        }
    }
}

/// A name without separators placed after a directory text that is empty or
/// ends in a separator is the final component of the result.
pub proof fn lemma_final_component_after(pre: Seq<char>, name: Seq<char>)
    requires
        name.len() > 0,
        forall|j: int| 0 <= j < name.len() ==> name[j] != '/',
        pre.len() == 0 || pre.last() == '/',
        name.len() >= 2 || name[0] != '.',
    ensures
        name_end(pre + name) == pre.len() + name.len(),
        name_start(pre + name) == pre.len(),
        final_component(pre + name) == name,
{
    let s = pre + name;
    assert(s[s.len() - 1] == name[name.len() - 1]);
    if name.len() >= 2 {
        assert(s[s.len() - 2] == name[name.len() - 2]);
    }
    assert(name_end(s) == s.len());
    assert forall|j: int| pre.len() <= j < s.len() implies s[j] != '/' by {
        assert(s[j] == name[j - pre.len()]);
    }
    lemma_scan_skips(s, pre.len() as int, s.len() as int, '/');
    if pre.len() > 0 {
        assert(s[pre.len() - 1] == '/');
    }
    assert(s.subrange(pre.len() as int, s.len() as int) =~= name);
}

/// Placing a file name below a parent text gives a path whose parent is that
/// text and whose final component is that name.
pub proof fn lemma_join_below_parent(dir: Seq<char>, name: Seq<char>)
    requires
        name.len() > 0,
        forall|j: int| 0 <= j < name.len() ==> name[j] != '/',
        name.len() >= 2 || name[0] != '.',
        dir.len() == 0 || dir == seq!['/'] || (dir.last() != '/' && !ends_in_redundant_tail(
            dir,
            dir.len() as int,
        )),
    ensures
        final_component(joined_text(dir, name)) == name,
        parent_text(joined_text(dir, name)) == Some(dir),
{
    let s = joined_text(dir, name);
    assert(name[0] != '/');
    if dir.len() == 0 {
        assert(s == Seq::<char>::empty() + name) by {
            assert(Seq::<char>::empty() + name =~= name);
        }
        lemma_final_component_after(Seq::<char>::empty(), name);
        assert(s[0] == name[0]);
    } else if dir.last() == '/' {
        lemma_final_component_after(dir, name);
        assert(dir =~= seq!['/']);
        assert(s[0] == '/');
        assert(s.len() > 1);
    } else {
        let pre = dir + seq!['/'];
        assert(s =~= pre + name);
        lemma_final_component_after(pre, name);
        let k = dir.len() as int;
        assert(s[k - 1] == dir.last());
        if k > 1 {
            assert(s[k - 2] == dir[k - 2]);
            assert(trimmed_end(s, k) == k);
        }
        assert(s.subrange(0, k) =~= dir);
        assert(s.len() > 1);
    }
}

/// Where the final component of `s` ends.
pub open spec fn name_end(s: Seq<char>) -> int {
    trimmed_end(s, s.len() as int)
}

/// Where the final component of `s` starts.
pub open spec fn name_start(s: Seq<char>) -> int {
    last_index_before(s, name_end(s), '/') + 1
}

/// The final component of `s`, which may be empty, `.` or `..`.
pub open spec fn final_component(s: Seq<char>) -> Seq<char> {
    s.subrange(name_start(s), name_end(s))
}

/// A component that names a file: neither empty nor `.` nor `..`.
pub open spec fn is_named_component(c: Seq<char>) -> bool {
    c.len() > 0 && c != seq!['.'] && c != seq!['.', '.']
}

/// The file name of `s`, when its final component names a file.
pub open spec fn file_name_text(s: Seq<char>) -> Option<Seq<char>> {
    if is_named_component(final_component(s)) {
        Some(final_component(s))
    } else {
        None
    }
}

/// The parent of `s`: the path without its final component.
pub open spec fn parent_text(s: Seq<char>) -> Option<Seq<char>> {
    let t = name_end(s);
    let k = name_start(s) - 1;
    if t == 0 || (t == 1 && s[0] == '/') {
        None
    } else if k < 0 {
        Some(Seq::<char>::empty())
    } else if k == 0 {
        Some(seq!['/'])
    } else {
        Some(s.subrange(0, trimmed_end(s, k)))
    }
}

/// Index of the dot that separates stem and extension in a file name (at most 0 when none).
pub open spec fn dot_index(name: Seq<char>) -> int {
    last_index_before(name, name.len() as int, '.')
}

/// The stem of a file name: the text before its last dot, or all of it.
pub open spec fn stem_of_name(name: Seq<char>) -> Seq<char> {
    if dot_index(name) <= 0 {
        name
    } else {
        name.subrange(0, dot_index(name))
    }
}

/// The extension of a file name: the text after its last dot, if there is one.
pub open spec fn extension_of_name(name: Seq<char>) -> Option<Seq<char>> {
    if dot_index(name) <= 0 {
        None
    } else {
        Some(name.subrange(dot_index(name) + 1, name.len() as int))
    }
}

/// The stem of the file name of `s`.
pub open spec fn file_stem_text(s: Seq<char>) -> Option<Seq<char>> {
    match file_name_text(s) {
        Some(name) => Some(stem_of_name(name)),
        None => None,
    }
}

/// The extension of the file name of `s`.
pub open spec fn extension_text(s: Seq<char>) -> Option<Seq<char>> {
    match file_name_text(s) {
        Some(name) => extension_of_name(name),
        None => None,
    }
}

/// `rel` placed below `base`; an absolute `rel` replaces `base`.
pub open spec fn joined_text(base: Seq<char>, rel: Seq<char>) -> Seq<char> {
    if rel.len() > 0 && rel[0] == '/' {
        rel
    } else if base.len() == 0 {
        rel
    } else if base.last() == '/' {
        base + rel
    } else {
        base + seq!['/'] + rel
    }
}

/// True when `s` ends with `suffix`.
pub open spec fn has_suffix(s: Seq<char>, suffix: Seq<char>) -> bool {
    suffix.len() <= s.len() && s.subrange(s.len() - suffix.len(), s.len() as int) == suffix
}

/// True when `s` starts at the root directory.
pub open spec fn has_root(s: Seq<char>) -> bool {
    s.len() > 0 && s[0] == '/'
}

/// True when a relative `s` starts with a `.` component, which is kept.
pub open spec fn starts_at_current_dir(s: Seq<char>) -> bool {
    !has_root(s) && s.len() > 0 && s[0] == '.' && (s.len() == 1 || s[1] == '/')
}

/// A text between separators that stands for a component: not empty and not `.`.
pub open spec fn is_kept_part(p: Seq<char>) -> bool {
    p.len() > 0 && p != seq!['.']
}

/// The texts between separators of `s` that stand for components, in order:
/// empty texts and `.` are left out.
pub open spec fn named_parts(s: Seq<char>) -> Seq<Seq<char>>
    decreases s.len(),
{
    let k = last_index_before(s, s.len() as int, '/');
    let tail = s.subrange(k + 1, s.len() as int);
    if k < 0 {
        if is_kept_part(tail) {
            seq![tail]
        } else {
            Seq::empty()
        }
    } else {
        proof {
            lemma_last_index_before(s, s.len() as int, '/');
        }
        let front = named_parts(s.subrange(0, k));
        if is_kept_part(tail) {
            front.push(tail)
        } else {
            front
        }
    }
}

/// One component of a path.
pub enum PathComponent {
    RootDir,
    CurDir,
    ParentDir,
    Normal(Seq<char>),
}

/// The component that a kept part stands for.
pub open spec fn part_component(p: Seq<char>) -> PathComponent {
    if p == seq!['.', '.'] {
        PathComponent::ParentDir
    } else {
        PathComponent::Normal(p)
    }
}

/// The components of `s`: the root or a leading `.` first, then one per kept part.
pub open spec fn path_components(s: Seq<char>) -> Seq<PathComponent> {
    let head = if has_root(s) {
        seq![PathComponent::RootDir]
    } else if starts_at_current_dir(s) {
        seq![PathComponent::CurDir]
    } else {
        Seq::empty()
    };
    head + named_parts(s).map_values(|p: Seq<char>| part_component(p))
}

/// True when `a` and `b` have the same components, so that they name the same path.
pub open spec fn same_path(a: Seq<char>, b: Seq<char>) -> bool {
    path_components(a) == path_components(b)
}

/// Two paths have the same components exactly when they agree on the root, on
/// a leading `.` and on their kept parts.
pub proof fn lemma_same_path_parts(a: Seq<char>, b: Seq<char>)
    ensures
        same_path(a, b) <==> (has_root(a) == has_root(b) && starts_at_current_dir(a)
            == starts_at_current_dir(b) && named_parts(a) == named_parts(b)),
{
    let ca = path_components(a);
    let cb = path_components(b);
    let ma = named_parts(a).map_values(|p: Seq<char>| part_component(p));
    let mb = named_parts(b).map_values(|p: Seq<char>| part_component(p));
    let ha: int = if has_root(a) || starts_at_current_dir(a) { 1 } else { 0 };
    let hb: int = if has_root(b) || starts_at_current_dir(b) { 1 } else { 0 };
    if ca == cb {
        assert(ca.len() == ha + ma.len());
        assert(cb.len() == hb + mb.len());
        if ha == 1 && hb == 0 {
            assert(ca[0] == cb[0]);
            assert(cb[0] == mb[0]);
            assert(false);
        }
        if ha == 0 && hb == 1 {
            assert(ca[0] == cb[0]);
            assert(ca[0] == ma[0]);
            assert(false);
        }
        if ha == 1 {
            assert(ca[0] == cb[0]);
        }
        assert forall|j: int| 0 <= j < ma.len() implies ma[j] == mb[j] by {
            assert(ca[ha + j] == ma[j]);
            assert(cb[hb + j] == mb[j]);
        }
        assert forall|j: int| 0 <= j < named_parts(a).len() implies named_parts(a)[j]
            == named_parts(b)[j] by {
            assert(ma[j] == part_component(named_parts(a)[j]));
            assert(mb[j] == part_component(named_parts(b)[j]));
        }
        assert(named_parts(a) =~= named_parts(b));
    }
}

/// The kept parts of two texts joined by a separator are those of the first
/// followed by those of the second.
pub proof fn lemma_named_parts_concat(x: Seq<char>, y: Seq<char>)
    ensures
        named_parts(x + seq!['/'] + y) == named_parts(x) + named_parts(y),
    decreases y.len(),
{
    let s = x + seq!['/'] + y;
    let l: int = x.len() as int + 1;
    assert(s[l - 1] == '/');
    lemma_last_index_before(y, y.len() as int, '/');
    let ky = last_index_before(y, y.len() as int, '/');
    assert forall|j: int| l + ky + 1 <= j < s.len() implies s[j] != '/' by {
        assert(s[j] == y[j - l]);
    }
    lemma_scan_skips(s, l + ky + 1, s.len() as int, '/');
    if ky < 0 {
        assert(last_index_before(s, l, '/') == l - 1);
        assert(s.subrange(l, s.len() as int) =~= y);
        assert(s.subrange(0, l - 1) =~= x);
        assert(y.subrange(0, y.len() as int) =~= y);
        if is_kept_part(y) {
            assert(named_parts(y) == seq![y]);
            assert(named_parts(s) == named_parts(x).push(y));
            assert(named_parts(x).push(y) =~= named_parts(x) + seq![y]);
        } else {
            assert(named_parts(y) == Seq::<Seq<char>>::empty());
            assert(named_parts(x) + Seq::<Seq<char>>::empty() =~= named_parts(x));
        }
    } else {
        assert(s[l + ky] == y[ky]);
        assert(last_index_before(s, l + ky + 1, '/') == l + ky);
        let y0 = y.subrange(0, ky);
        lemma_named_parts_concat(x, y0);
        assert(s.subrange(0, l + ky) =~= x + seq!['/'] + y0);
        assert(s.subrange(l + ky + 1, s.len() as int) =~= y.subrange(ky + 1, y.len() as int));
        let tail = y.subrange(ky + 1, y.len() as int);
        if is_kept_part(tail) {
            assert(named_parts(s) == named_parts(x + seq!['/'] + y0).push(tail));
            assert(named_parts(y) == named_parts(y0).push(tail));
            assert((named_parts(x) + named_parts(y0)).push(tail) =~= named_parts(x) + named_parts(
                y0,
            ).push(tail));
        } else {
            assert(named_parts(s) == named_parts(x + seq!['/'] + y0));
            assert(named_parts(y) == named_parts(y0));
        }
    }
}

/// Joining an absolute path replaces the base.
pub proof fn lemma_join_absolute_replaces(base: Seq<char>, rel: Seq<char>)
    requires
        rel.len() > 0 && rel[0] == '/',
    ensures
        joined_text(base, rel) == rel,
        same_path(joined_text(base, rel), rel),
{
}

/// Joining a relative path below a base appends its components to the base's
/// (an empty base gives the relative path itself).
pub proof fn lemma_join_relative_appends(base: Seq<char>, rel: Seq<char>)
    requires
        rel.len() == 0 || rel[0] != '/',
    ensures
        base.len() == 0 ==> joined_text(base, rel) == rel,
        base.len() > 0 ==> path_components(joined_text(base, rel)) == path_components(base)
            + named_parts(rel).map_values(|p: Seq<char>| part_component(p)),
{
    if base.len() > 0 {
        let j = joined_text(base, rel);
        let x = if base.last() == '/' {
            base.drop_last()
        } else {
            base
        };
        assert(j =~= x + seq!['/'] + rel);
        lemma_named_parts_concat(x, rel);
        if base.last() == '/' {
            assert(base =~= x + seq!['/'] + Seq::<char>::empty());
            lemma_named_parts_concat(x, Seq::<char>::empty());
            assert(named_parts(Seq::<char>::empty()) =~= Seq::<Seq<char>>::empty());
            assert(named_parts(x) + Seq::<Seq<char>>::empty() =~= named_parts(x));
        }
        assert(named_parts(j) == named_parts(base) + named_parts(rel));
        assert(j[0] == base[0]);
        if base.len() >= 2 {
            assert(j[1] == base[1]);
        } else if base[0] != '/' {
            assert(j[1] == '/');
        }
        let f = |p: Seq<char>| part_component(p);
        assert((named_parts(base) + named_parts(rel)).map_values(f) =~= named_parts(base).map_values(
            f,
        ) + named_parts(rel).map_values(f));
        let head = if has_root(base) {
            seq![PathComponent::RootDir]
        } else if starts_at_current_dir(base) {
            seq![PathComponent::CurDir]
        } else {
            Seq::empty()
        };
        assert(path_components(j) =~= head + (named_parts(base).map_values(f) + named_parts(
            rel,
        ).map_values(f)));
    }
}

/// `named_parts` of a prefix ending at `i`, once the parts before `start` are
/// known and `start..i` holds no separator.
pub open spec fn parts_before(s: Seq<char>, start: int) -> Seq<Seq<char>> {
    if start <= 0 {
        Seq::empty()
    } else {
        named_parts(s.subrange(0, start - 1))
    }
}

/// The kept parts of a prefix are those before its last separator, and the
/// text after it when that is kept.
pub proof fn lemma_named_parts_step(s: Seq<char>, start: int, i: int)
    requires
        0 <= start <= i <= s.len(),
        forall|j: int| start <= j < i ==> s[j] != '/',
        start > 0 ==> s[start - 1] == '/',
    ensures
        named_parts(s.subrange(0, i)) == (if is_kept_part(s.subrange(start, i)) {
            parts_before(s, start).push(s.subrange(start, i))
        } else {
            parts_before(s, start)
        }),
{
    let t = s.subrange(0, i);
    assert forall|j: int| start <= j < i implies t[j] != '/' by {}
    lemma_scan_skips(t, start, i, '/');
    if start > 0 {
        assert(t[start - 1] == '/');
        assert(last_index_before(t, start, '/') == start - 1);
        assert(t.subrange(0, start - 1) =~= s.subrange(0, start - 1));
    } else {
        assert(last_index_before(t, 0, '/') == -1);
    }
    assert(t.subrange(start, i) =~= s.subrange(start, i));
}

/// The characters of `s`, one per element.
pub fn chars_of(s: &str) -> (v: Vec<char>)
    ensures
        v@ == s@,
{
    let n = s.unicode_len();
    let mut v: Vec<char> = Vec::new();
    let mut i: usize = 0;
    while i < n
        invariant
            n == s@.len(),
            i <= n,
            v@ == s@.subrange(0, i as int),
        decreases n - i,
    {
        let c = s.get_char(i);
        v.push(c);
        i += 1;
        assert(v@ =~= s@.subrange(0, i as int));
    }
    assert(v@ =~= s@);
    v
}

fn trimmed_end_exec(v: &Vec<char>, end: usize) -> (r: usize)
    requires
        end <= v.len(),
    ensures
        r as int == trimmed_end(v@, end as int),
        r <= end,
{
    let mut e = end;
    while e > 1 && (v[e - 1] == '/' || (v[e - 1] == '.' && v[e - 2] == '/'))
        invariant
            e <= end <= v.len(),
            trimmed_end(v@, e as int) == trimmed_end(v@, end as int),
        decreases e,
    {
        e -= 1;
    }
    e
}

fn last_index_before_exec(v: &Vec<char>, end: usize, c: char) -> (r: Option<usize>)
    requires
        end <= v.len(),
    ensures
        match r {
            Some(i) => i as int == last_index_before(v@, end as int, c) && i < end,
            None => last_index_before(v@, end as int, c) == -1,
        },
{
    let mut e = end;
    while e > 0
        invariant
            e <= end <= v.len(),
            last_index_before(v@, e as int, c) == last_index_before(v@, end as int, c),
        decreases e,
    {
        if v[e - 1] == c {
            return Some(e - 1);
        }
        e -= 1;
    }
    None
}

/// Start and end of the final component of `v`.
fn component_bounds(v: &Vec<char>) -> (r: (usize, usize))
    ensures
        r.0 as int == name_start(v@),
        r.1 as int == name_end(v@),
        r.0 <= r.1 <= v.len(),
{
    let end = trimmed_end_exec(v, v.len());
    let start = match last_index_before_exec(v, end, '/') {
        Some(i) => i + 1,
        None => 0,
    };
    (start, end)
}

fn is_named_exec(v: &Vec<char>, start: usize, end: usize) -> (b: bool)
    requires
        start <= end <= v.len(),
    ensures
        b == is_named_component(v@.subrange(start as int, end as int)),
{
    let n = end - start;
    let ghost c = v@.subrange(start as int, end as int);
    if n == 0 {
        false
    } else if n == 1 && v[start] == '.' {
        assert(c =~= seq!['.']);
        false
    } else if n == 2 && v[start] == '.' && v[start + 1] == '.' {
        assert(c =~= seq!['.', '.']);
        false
    } else {
        proof {
            if c == seq!['.'] {
                assert(c.len() == 1 && c[0] == v@[start as int]);
            }
            if c == seq!['.', '.'] {
                assert(c.len() == 2 && c[0] == v@[start as int] && c[1] == v@[start + 1]);
            }
        }
        true
    }
}

/// The file name of `path`, when its final component names a file.
pub fn file_name(path: &str) -> (r: Option<String>)
    ensures
        match r {
            Some(name) => file_name_text(path@) == Some(name@),
            None => file_name_text(path@) is None,
        },
{
    let v = chars_of(path);
    let (start, end) = component_bounds(&v);
    if is_named_exec(&v, start, end) {
        Some(String::from_str(path.substring_char(start, end)))
    } else {
        None
    }
}

/// The parent of `path`: the path without its final component.
pub fn parent(path: &str) -> (r: Option<String>)
    ensures
        match r {
            Some(p) => parent_text(path@) == Some(p@),
            None => parent_text(path@) is None,
        },
{
    let v = chars_of(path);
    let (start, end) = component_bounds(&v);
    if end == 0 || (end == 1 && v[0] == '/') {
        None
    } else if start == 0 {
        Some(String::new())
    } else if start == 1 {
        proof {
            lemma_last_index_before(v@, end as int, '/');
            assert(path@.subrange(0, 1) =~= seq!['/']);
        }
        Some(String::from_str(path.substring_char(0, 1)))
    } else {
        let e = trimmed_end_exec(&v, start - 1);
        Some(String::from_str(path.substring_char(0, e)))
    }
}

/// The stem of the file name of `path`.
pub fn file_stem(path: &str) -> (r: Option<String>)
    ensures
        match r {
            Some(stem) => file_stem_text(path@) == Some(stem@),
            None => file_stem_text(path@) is None,
        },
{
    match file_name(path) {
        None => None,
        Some(name) => {
            let nv = chars_of(name.as_str());
            match last_index_before_exec(&nv, nv.len(), '.') {
                Some(d) if d > 0 => Some(String::from_str(name.as_str().substring_char(0, d))),
                _ => Some(name),
            }
        },
    }
}

/// The extension of the file name of `path`.
pub fn extension(path: &str) -> (r: Option<String>)
    ensures
        match r {
            Some(ext) => extension_text(path@) == Some(ext@),
            None => extension_text(path@) is None,
        },
{
    match file_name(path) {
        None => None,
        Some(name) => {
            let nv = chars_of(name.as_str());
            match last_index_before_exec(&nv, nv.len(), '.') {
                Some(d) if d > 0 => Some(
                    String::from_str(name.as_str().substring_char(d + 1, nv.len())),
                ),
                _ => None,
            }
        },
    }
}

/// `rel` placed below `base`; an absolute `rel` replaces `base`.
pub fn join(base: &str, rel: &str) -> (r: String)
    ensures
        r@ == joined_text(base@, rel@),
{
    let rel_len = rel.unicode_len();
    let base_len = base.unicode_len();
    if rel_len > 0 && rel.get_char(0) == '/' {
        String::from_str(rel)
    } else if base_len == 0 {
        String::from_str(rel)
    } else if base.get_char(base_len - 1) == '/' {
        String::from_str(base).concat(rel)
    } else {
        let r = String::from_str(base).concat("/").concat(rel);
        proof {
            reveal_strlit("/");
        }
        r
    }
}

/// True when `s` ends with `suffix`.
pub fn ends_with_text(s: &str, suffix: &str) -> (b: bool)
    ensures
        b == has_suffix(s@, suffix@),
{
    let n = s.unicode_len();
    let m = suffix.unicode_len();
    if m > n {
        return false;
    }
    let mut i: usize = 0;
    while i < m
        invariant
            n == s@.len(),
            m == suffix@.len(),
            m <= n,
            i <= m,
            forall|j: int| 0 <= j < i ==> s@[n - m + j] == suffix@[j],
        decreases m - i,
    {
        if s.get_char(n - m + i) != suffix.get_char(i) {
            assert(s@.subrange(n - m, n as int)[i as int] != suffix@[i as int]);
            return false;
        }
        i += 1;
    }
    assert(s@.subrange(n - m, n as int) =~= suffix@);
    true
}

/// `r` holds one range of indices into `v` per element of `parts`, each
/// range holding that element.
pub open spec fn ranges_hold(v: Seq<char>, r: Seq<(usize, usize)>, parts: Seq<Seq<char>>) -> bool {
    &&& r.len() == parts.len()
    &&& forall|j: int|
        #![trigger r[j]]
        0 <= j < r.len() ==> r[j].0 <= r[j].1 <= v.len() && v.subrange(r[j].0 as int, r[j].1 as int)
            == parts[j]
}

/// Where the kept parts of `v` lie: one range of indices per part, in order.
pub(crate) fn named_part_ranges(v: &Vec<char>) -> (r: Vec<(usize, usize)>)
    ensures
        ranges_hold(v@, r@, named_parts(v@)),
{
    let n = v.len();
    let mut ranges: Vec<(usize, usize)> = Vec::new();
    let mut start: usize = 0;
    let mut i: usize = 0;
    while i < n
        invariant
            n == v@.len(),
            start <= i <= n,
            forall|j: int| start <= j < i ==> v@[j] != '/',
            start > 0 ==> v@[start - 1] == '/',
            ranges_hold(v@, ranges@, parts_before(v@, start as int)),
        decreases n - i,
    {
        if v[i] == '/' {
            proof {
                lemma_named_parts_step(v@, start as int, i as int);
            }
            let kept = is_kept_range(v, start, i);
            let ghost old_ranges = ranges@;
            if kept {
                ranges.push((start, i));
            }
            proof {
                let p = parts_before(v@, i + 1);
                assert(p == named_parts(v@.subrange(0, i as int)));
                assert forall|j: int| #![trigger ranges@[j]] 0 <= j < ranges@.len() implies ranges@[j].0
                    <= ranges@[j].1 <= n && v@.subrange(ranges@[j].0 as int, ranges@[j].1 as int)
                    == p[j] by {
                    if j < old_ranges.len() {
                        assert(ranges@[j] == old_ranges[j]);
                    }
                }
            }
            start = i + 1;
        }
        i += 1;
    }
    proof {
        lemma_named_parts_step(v@, start as int, n as int);
        assert(v@.subrange(0, n as int) =~= v@);
    }
    let ghost old_ranges = ranges@;
    if is_kept_range(v, start, n) {
        ranges.push((start, n));
    }
    proof {
        let p = named_parts(v@);
        assert forall|j: int| #![trigger ranges@[j]] 0 <= j < ranges@.len() implies ranges@[j].0
            <= ranges@[j].1 <= n && v@.subrange(ranges@[j].0 as int, ranges@[j].1 as int)
            == p[j] by {
            if j < old_ranges.len() {
                assert(ranges@[j] == old_ranges[j]);
            }
        }
    }
    ranges
}

/// True when `v[start..end]` is a kept part.
fn is_kept_range(v: &Vec<char>, start: usize, end: usize) -> (b: bool)
    requires
        start <= end <= v.len(),
    ensures
        b == is_kept_part(v@.subrange(start as int, end as int)),
{
    let ghost p = v@.subrange(start as int, end as int);
    if end == start {
        false
    } else if end - start == 1 && v[start] == '.' {
        assert(p =~= seq!['.']);
        false
    } else {
        proof {
            if p == seq!['.'] {
                assert(p.len() == 1 && p[0] == v@[start as int]);
            }
        }
        true
    }
}

/// True when `a[a0..a1]` and `b[b0..b1]` hold the same characters.
fn ranges_equal(a: &Vec<char>, a0: usize, a1: usize, b: &Vec<char>, b0: usize, b1: usize) -> (r: bool)
    requires
        a0 <= a1 <= a.len(),
        b0 <= b1 <= b.len(),
    ensures
        r == (a@.subrange(a0 as int, a1 as int) == b@.subrange(b0 as int, b1 as int)),
{
    if a1 - a0 != b1 - b0 {
        assert(a@.subrange(a0 as int, a1 as int).len() != b@.subrange(b0 as int, b1 as int).len());
        return false;
    }
    let n = a1 - a0;
    let mut i: usize = 0;
    while i < n
        invariant
            n == a1 - a0 == b1 - b0,
            a0 <= a1 <= a.len(),
            b0 <= b1 <= b.len(),
            i <= n,
            forall|j: int|
                0 <= j < i ==> a@.subrange(a0 as int, a1 as int)[j] == #[trigger] b@.subrange(
                    b0 as int,
                    b1 as int,
                )[j],
        decreases n - i,
    {
        if a[a0 + i] != b[b0 + i] {
            assert(a@.subrange(a0 as int, a1 as int)[i as int] != b@.subrange(
                b0 as int,
                b1 as int,
            )[i as int]);
            return false;
        }
        i += 1;
    }
    assert(a@.subrange(a0 as int, a1 as int) =~= b@.subrange(b0 as int, b1 as int));
    true
}

pub(crate) fn has_root_exec(v: &Vec<char>) -> (b: bool)
    ensures
        b == has_root(v@),
{
    v.len() > 0 && v[0] == '/'
}

pub(crate) fn starts_at_current_dir_exec(v: &Vec<char>) -> (b: bool)
    ensures
        b == starts_at_current_dir(v@),
{
    !has_root_exec(v) && v.len() > 0 && v[0] == '.' && (v.len() == 1 || v[1] == '/')
}

/// True when `a` and `b` have the same components, as `a/./b`, `a//b` and
/// `a/b/` all have.
pub fn is_same_path(a: &str, b: &str) -> (r: bool)
    ensures
        r == same_path(a@, b@),
{
    proof {
        lemma_same_path_parts(a@, b@);
    }
    let va = chars_of(a);
    let vb = chars_of(b);
    if has_root_exec(&va) != has_root_exec(&vb) || starts_at_current_dir_exec(&va)
        != starts_at_current_dir_exec(&vb) {
        return false;
    }
    let ra = named_part_ranges(&va);
    let rb = named_part_ranges(&vb);
    if ra.len() != rb.len() {
        return false;
    }
    let mut i: usize = 0;
    while i < ra.len()
        invariant
            va@ == a@,
            vb@ == b@,
            ra@.len() == rb@.len(),
            ranges_hold(va@, ra@, named_parts(va@)),
            ranges_hold(vb@, rb@, named_parts(vb@)),
            i <= ra@.len(),
            forall|j: int| 0 <= j < i ==> named_parts(va@)[j] == named_parts(vb@)[j],
        decreases ra.len() - i,
    {
        let (a0, a1) = ra[i];
        let (b0, b1) = rb[i];
        assert(ra@[i as int] == (a0, a1) && rb@[i as int] == (b0, b1));
        if !ranges_equal(&va, a0, a1, &vb, b0, b1) {
            assert(named_parts(va@)[i as int] != named_parts(vb@)[i as int]);
            assert(!(named_parts(a@) =~= named_parts(b@))) by {
                assert(named_parts(a@)[i as int] != named_parts(b@)[i as int]);
            }
            assert(!same_path(a@, b@)) by {
                lemma_same_path_parts(a@, b@);
            }
            return false;
        }
        i += 1;
    }
    assert(named_parts(va@) =~= named_parts(vb@));
    true
}

/// True when `a` and `b` hold the same text.
pub fn text_eq(a: &str, b: &str) -> (r: bool)
    ensures
        r == (a@ == b@),
{
    let n = a.unicode_len();
    if n != b.unicode_len() {
        return false;
    }
    let mut i: usize = 0;
    while i < n
        invariant
            n == a@.len() == b@.len(),
            i <= n,
            forall|j: int| 0 <= j < i ==> a@[j] == b@[j],
        decreases n - i,
    {
        if a.get_char(i) != b.get_char(i) {
            return false;
        }
        i += 1;
    }
    assert(a@ =~= b@);
    true
}

} // verus!
