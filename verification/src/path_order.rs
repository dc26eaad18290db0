//! The order of paths: component by component, a path that runs out first
//! coming first. Components order by kind (the root, then a leading `.`, then
//! `..`, then names) and names by the codes of their characters.
//!
//! The order is computed on code sequences: each component becomes a few codes
//! and comparing the concatenated codes with `codes_le` compares the paths.
use crate::catalog_order::{codes_le, lemma_codes_le_skip};
use crate::path_text::{
    chars_of, has_root, has_root_exec, named_part_ranges, named_parts, part_component,
    path_components, ranges_hold, starts_at_current_dir, starts_at_current_dir_exec,
    PathComponent,
};
use vstd::prelude::*;

verus! {

/// The codes of the characters of a text.
pub open spec fn char_codes(s: Seq<char>) -> Seq<u32> {
    s.map_values(|c: char| c as u32)
}

/// The rank of a component's kind: root 1, `.` 2, `..` 3, name 4.
pub open spec fn component_rank(c: PathComponent) -> u32 {
    match c {
        PathComponent::RootDir => 1,
        PathComponent::CurDir => 2,
        PathComponent::ParentDir => 3,
        PathComponent::Normal(_) => 4,
    }
}

/// Order on single components: by kind, and names by their characters' codes.
pub open spec fn component_le(a: PathComponent, b: PathComponent) -> bool {
    if a is Normal && b is Normal {
        codes_le(char_codes(a->0), char_codes(b->0))
    } else {
        component_rank(a) <= component_rank(b)
    }
}

/// Order on component sequences: the first component that differs decides,
/// and a sequence that runs out first comes first.
pub open spec fn components_le(a: Seq<PathComponent>, b: Seq<PathComponent>) -> bool
    decreases a.len(),
{
    if a.len() == 0 {
        true
    } else if b.len() == 0 {
        false
    } else if a[0] != b[0] {
        component_le(a[0], b[0])
    } else {
        components_le(a.drop_first(), b.drop_first())
    }
}

/// The characters of a name as codes: 1 and then its code, for each one.
pub open spec fn name_char_codes(p: Seq<char>) -> Seq<u32>
    decreases p.len(),
{
    if p.len() == 0 {
        Seq::empty()
    } else {
        name_char_codes(p.drop_last()) + seq![1u32, p.last() as u32]
    }
}

/// The codes of one component: its rank; a name then gives its characters and
/// closes with 0, so that a name that is a prefix of another comes first.
pub open spec fn component_codes(c: PathComponent) -> Seq<u32> {
    match c {
        PathComponent::Normal(p) => seq![4u32] + name_char_codes(p) + seq![0u32],
        _ => seq![component_rank(c)],
    }
}

/// The codes of a sequence of components, one after another.
pub open spec fn components_codes(cs: Seq<PathComponent>) -> Seq<u32>
    decreases cs.len(),
{
    if cs.len() == 0 {
        Seq::empty()
    } else {
        components_codes(cs.drop_last()) + component_codes(cs.last())
    }
}

/// The codes of a path, compared with `codes_le` to order paths.
pub open spec fn path_order_codes(s: Seq<char>) -> Seq<u32> {
    components_codes(path_components(s))
}

/// Where the codes of a name's characters sit.
pub proof fn lemma_name_char_codes(p: Seq<char>)
    ensures
        name_char_codes(p).len() == 2 * p.len(),
        forall|i: int|
            #![trigger p[i]]
            0 <= i < p.len() ==> name_char_codes(p).subrange(2 * i, 2 * i + 2) == seq![
                1u32,
                p[i] as u32,
            ],
    decreases p.len(),
{
    if p.len() > 0 {
        let q = p.drop_last();
        lemma_name_char_codes(q);
        let n = name_char_codes(p);
        let m = name_char_codes(q);
        assert(n == m + seq![1u32, p.last() as u32]);
        assert forall|i: int| #![trigger p[i]] 0 <= i < p.len() implies n.subrange(2 * i, 2 * i + 2)
            == seq![1u32, p[i] as u32] by {
            if i < q.len() {
                assert(p[i] == q[i]);
                assert(m.subrange(2 * i, 2 * i + 2) == seq![1u32, q[i] as u32]);
                assert(n.subrange(2 * i, 2 * i + 2) =~= m.subrange(2 * i, 2 * i + 2));
            } else {
                assert(n.subrange(2 * i, 2 * i + 2) =~= seq![1u32, p.last() as u32]);
            }
        }
    }
}

/// The two codes of character `i` of a name.
proof fn lemma_name_char_code_at(p: Seq<char>, i: int)
    requires
        0 <= i < p.len(),
    ensures
        name_char_codes(p).len() == 2 * p.len(),
        name_char_codes(p)[2 * i] == 1,
        name_char_codes(p)[2 * i + 1] == p[i] as u32,
{
    lemma_name_char_codes(p);
    let s = name_char_codes(p).subrange(2 * i, 2 * i + 2);
    assert(s == seq![1u32, p[i] as u32]);
    assert(s[0] == name_char_codes(p)[2 * i]);
    assert(s[1] == name_char_codes(p)[2 * i + 1]);
}

/// The codes of a sequence that starts with `c` start with the codes of `c`.
pub proof fn lemma_components_codes_front(c: PathComponent, rest: Seq<PathComponent>)
    ensures
        components_codes(seq![c] + rest) == component_codes(c) + components_codes(rest),
    decreases rest.len(),
{
    let t = seq![c] + rest;
    if rest.len() == 0 {
        assert(t =~= seq![c]);
        assert(t.drop_last() =~= Seq::<PathComponent>::empty());
        assert(components_codes(t.drop_last()) == Seq::<u32>::empty());
        assert(components_codes(t) == components_codes(t.drop_last()) + component_codes(t.last()));
        assert(components_codes(rest) == Seq::<u32>::empty());
        assert(component_codes(c) + Seq::<u32>::empty() =~= component_codes(c));
        assert(Seq::<u32>::empty() + component_codes(c) =~= component_codes(c));
    } else {
        let r = rest.drop_last();
        lemma_components_codes_front(c, r);
        assert(t.drop_last() =~= seq![c] + r);
        assert(t.last() == rest.last());
        assert(components_codes(t) == components_codes(t.drop_last()) + component_codes(t.last()));
        assert(components_codes(rest) == components_codes(r) + component_codes(rest.last()));
        assert(components_codes(t) =~= component_codes(c) + components_codes(rest));
    }
}

/// Comparing code sequences that agree before `j` and differ at `j`.
proof fn lemma_codes_le_first_difference(a: Seq<u32>, b: Seq<u32>, j: int)
    requires
        0 <= j < a.len(),
        j < b.len(),
        forall|i: int| 0 <= i < j ==> a[i] == b[i],
        a[j] != b[j],
    ensures
        codes_le(a, b) == (a[j] < b[j]),
{
    lemma_codes_le_skip(a, b, j);
    let sa = a.subrange(j, a.len() as int);
    let sb = b.subrange(j, b.len() as int);
    assert(sa[0] == a[j] && sb[0] == b[j]);
}

/// The length of the common prefix of `x` and `y` from `k` on.
pub open spec fn common_prefix_len(x: Seq<char>, y: Seq<char>, k: int) -> int
    decreases x.len() - k,
{
    if k < 0 || k >= x.len() || k >= y.len() || x[k] != y[k] {
        k
    } else {
        common_prefix_len(x, y, k + 1)
    }
}

proof fn lemma_common_prefix_len(x: Seq<char>, y: Seq<char>, k: int)
    requires
        0 <= k <= x.len(),
        k <= y.len(),
        forall|i: int| 0 <= i < k ==> x[i] == y[i],
    ensures
        k <= common_prefix_len(x, y, k) <= x.len(),
        common_prefix_len(x, y, k) <= y.len(),
        forall|i: int| 0 <= i < common_prefix_len(x, y, k) ==> x[i] == y[i],
        common_prefix_len(x, y, k) < x.len() && common_prefix_len(x, y, k) < y.len() ==> x[
            common_prefix_len(x, y, k)
        ] != y[common_prefix_len(x, y, k)],
    decreases x.len() - k,
{
    if k < x.len() && k < y.len() && x[k] == y[k] {
        lemma_common_prefix_len(x, y, k + 1);
    }
}

/// Characters with the same code are the same character.
proof fn lemma_char_code_injective(c: char, d: char)
    requires
        c as u32 == d as u32,
    ensures
        c == d,
{
    vstd::utf8::char_u32_cast(c, c as u32);
    vstd::utf8::char_u32_cast(d, d as u32);
}

/// Comparing the codes of two different names compares their characters.
proof fn lemma_name_codes_compare(x: Seq<char>, y: Seq<char>, xs: Seq<u32>, ys: Seq<u32>)
    requires
        x != y,
    ensures
        codes_le(
            seq![4u32] + name_char_codes(x) + seq![0u32] + xs,
            seq![4u32] + name_char_codes(y) + seq![0u32] + ys,
        ) == codes_le(char_codes(x), char_codes(y)),
{
    let a = seq![4u32] + name_char_codes(x) + seq![0u32] + xs;
    let b = seq![4u32] + name_char_codes(y) + seq![0u32] + ys;
    lemma_name_char_codes(x);
    lemma_name_char_codes(y);
    lemma_common_prefix_len(x, y, 0);
    let k = common_prefix_len(x, y, 0);
    let cx = char_codes(x);
    let cy = char_codes(y);
    assert forall|i: int| 0 <= i < 1 + 2 * k implies a[i] == b[i] by {
        if i > 0 {
            let h = (i - 1) / 2;
            assert(x[h] == y[h]);
            lemma_name_char_code_at(x, h);
            lemma_name_char_code_at(y, h);
            if i % 2 == 1 {
                assert(i == 2 * h + 1);
                assert(a[i] == name_char_codes(x)[2 * h]);
                assert(b[i] == name_char_codes(y)[2 * h]);
            } else {
                assert(i == 2 * h + 2);
                assert(a[i] == name_char_codes(x)[2 * h + 1]);
                assert(b[i] == name_char_codes(y)[2 * h + 1]);
            }
        }
    }
    assert forall|i: int| 0 <= i < k implies cx[i] == cy[i] by {
        assert(x[i] == y[i]);
    }
    lemma_codes_le_skip(cx, cy, k);
    let rx = cx.subrange(k, cx.len() as int);
    let ry = cy.subrange(k, cy.len() as int);
    if k < x.len() && k < y.len() {
        lemma_name_char_code_at(x, k);
        lemma_name_char_code_at(y, k);
        assert(a[1 + 2 * k] == name_char_codes(x)[2 * k]);
        assert(b[1 + 2 * k] == name_char_codes(y)[2 * k]);
        assert(a[2 + 2 * k] == name_char_codes(x)[2 * k + 1]);
        assert(b[2 + 2 * k] == name_char_codes(y)[2 * k + 1]);
        if x[k] as u32 == y[k] as u32 {
            lemma_char_code_injective(x[k], y[k]);
        }
        assert(rx[0] == x[k] as u32 && ry[0] == y[k] as u32);
        lemma_codes_le_first_difference(a, b, 2 + 2 * k);
    } else if k == x.len() && k < y.len() {
        lemma_name_char_code_at(y, k);
        assert(a[1 + 2 * k] == 0);
        assert(b[1 + 2 * k] == name_char_codes(y)[2 * k]);
        lemma_codes_le_first_difference(a, b, 1 + 2 * k);
        assert(rx.len() == 0);
    } else if k == y.len() && k < x.len() {
        lemma_name_char_code_at(x, k);
        assert(b[1 + 2 * k] == 0);
        assert(a[1 + 2 * k] == name_char_codes(x)[2 * k]);
        lemma_codes_le_first_difference(a, b, 1 + 2 * k);
        assert(ry.len() == 0 && rx.len() > 0);
    } else {
        assert(x =~= y);
    }
}

/// Comparing codes that start with the codes of two components: equal
/// components are skipped, different ones decide.
proof fn lemma_component_codes_compare(c: PathComponent, d: PathComponent, xs: Seq<u32>, ys: Seq<u32>)
    ensures
        codes_le(component_codes(c) + xs, component_codes(d) + ys) == if c == d {
            codes_le(xs, ys)
        } else {
            component_le(c, d)
        },
{
    let a = component_codes(c) + xs;
    let b = component_codes(d) + ys;
    if c == d {
        let n = component_codes(c).len() as int;
        lemma_codes_le_skip(a, b, n);
        assert(a.subrange(n, a.len() as int) =~= xs);
        assert(b.subrange(n, b.len() as int) =~= ys);
    } else if component_rank(c) != component_rank(d) {
        assert(a[0] == component_rank(c) && b[0] == component_rank(d));
        lemma_codes_le_first_difference(a, b, 0);
    } else {
        let x = c->0;
        let y = d->0;
        assert(component_codes(c) == seq![4u32] + name_char_codes(x) + seq![0u32]);
        assert(component_codes(d) == seq![4u32] + name_char_codes(y) + seq![0u32]);
        lemma_name_codes_compare(x, y, xs, ys);
    }
}

/// Comparing the codes of two component sequences compares the components in turn.
pub proof fn lemma_components_codes_compare(a: Seq<PathComponent>, b: Seq<PathComponent>)
    ensures
        codes_le(components_codes(a), components_codes(b)) == components_le(a, b),
    decreases a.len(),
{
    if a.len() > 0 {
        assert(a =~= seq![a[0]] + a.drop_first());
        lemma_components_codes_front(a[0], a.drop_first());
        if b.len() == 0 {
            assert(components_codes(b) =~= Seq::<u32>::empty());
            assert(components_codes(a).len() > 0);
        } else {
            assert(b =~= seq![b[0]] + b.drop_first());
            lemma_components_codes_front(b[0], b.drop_first());
            lemma_component_codes_compare(
                a[0],
                b[0],
                components_codes(a.drop_first()),
                components_codes(b.drop_first()),
            );
            lemma_components_codes_compare(a.drop_first(), b.drop_first());
        }
    }
}

/// Comparing the order codes of two paths compares their components in turn.
pub proof fn lemma_path_order_compares_components(p: Seq<char>, q: Seq<char>)
    ensures
        codes_le(path_order_codes(p), path_order_codes(q)) == components_le(
            path_components(p),
            path_components(q),
        ),
{
    lemma_components_codes_compare(path_components(p), path_components(q));
}

/// The order codes of `path`.
pub(crate) fn path_order_codes_of(path: &str) -> (r: Vec<u32>)
    ensures
        r@ == path_order_codes(path@),
{
    let v = chars_of(path);
    let ranges = named_part_ranges(&v);
    let ghost comps = path_components(v@);
    let ghost parts = named_parts(v@);
    let mut codes: Vec<u32> = Vec::new();
    let mut h: usize = 0;
    if has_root_exec(&v) {
        codes.push(1);
        h = 1;
    } else if starts_at_current_dir_exec(&v) {
        codes.push(2);
        h = 1;
    }
    proof {
        assert(comps.len() == h + parts.len());
        assert forall|k: int| 0 <= k < parts.len() implies comps[h + k] == part_component(
            #[trigger] parts[k],
        ) by {}
        assert(comps.take(0) =~= Seq::<PathComponent>::empty());
        if h == 1 {
            assert(comps.take(1).drop_last() =~= Seq::<PathComponent>::empty());
            assert(comps.take(1).last() == comps[0]);
            assert(components_codes(comps.take(1)) == components_codes(
                Seq::<PathComponent>::empty(),
            ) + component_codes(comps[0]));
            if has_root(v@) {
                assert(comps[0] == PathComponent::RootDir);
            } else {
                assert(comps[0] == PathComponent::CurDir);
            }
        }
        assert(codes@ =~= components_codes(comps.take(h as int)));
    }
    let mut k: usize = 0;
    while k < ranges.len()
        invariant
            v@ == path@,
            comps == path_components(v@),
            parts == named_parts(v@),
            ranges_hold(v@, ranges@, parts),
            h <= 1,
            comps.len() == h + parts.len(),
            forall|k: int| 0 <= k < parts.len() ==> comps[h + k] == part_component(#[trigger] parts[k]),
            k <= ranges@.len(),
            codes@ == components_codes(comps.take(h + k)),
        decreases ranges.len() - k,
    {
        let (a, b) = ranges[k];
        assert(ranges@[k as int] == (a, b));
        let ghost part = parts[k as int];
        let ghost before = codes@;
        if b - a == 2 && v[a] == '.' && v[a + 1] == '.' {
            assert(part =~= seq!['.', '.']);
            codes.push(3);
            assert(codes@ =~= before + component_codes(part_component(part)));
        } else {
            proof {
                if part == seq!['.', '.'] {
                    assert(part[0] == v@[a as int] && part[1] == v@[a + 1]);
                }
            }
            codes.push(4);
            let mut j: usize = a;
            assert(v@.subrange(a as int, a as int) =~= Seq::<char>::empty());
            assert(codes@ =~= before + seq![4u32] + name_char_codes(v@.subrange(a as int, a as int)));
            while j < b
                invariant
                    a <= j <= b <= v@.len(),
                    part == v@.subrange(a as int, b as int),
                    codes@ == before + seq![4u32] + name_char_codes(v@.subrange(a as int, j as int)),
                decreases b - j,
            {
                let c = v[j];
                let ghost prev = codes@;
                codes.push(1);
                codes.push(c as u32);
                j += 1;
                assert(v@.subrange(a as int, j as int).drop_last() =~= v@.subrange(a as int, j - 1));
                assert(codes@ =~= prev + seq![1u32, c as u32]);
                assert(codes@ =~= before + seq![4u32] + name_char_codes(v@.subrange(a as int, j as int)));
            }
            codes.push(0);
            assert(codes@ =~= before + component_codes(part_component(part)));
        }
        proof {
            assert(comps.take(h + k + 1).drop_last() =~= comps.take(h + k));
            assert(comps.take(h + k + 1).last() == comps[h + k]);
            assert(comps[h + k] == part_component(part));
        }
        k += 1;
    }
    assert(comps.take(h + ranges@.len()) =~= comps);
    codes
}

} // verus!
