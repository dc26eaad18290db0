//! The order in which engine catalogs list their entries: by label, ignoring
//! ASCII case, then by path, where paths compare component by component.
use crate::engine_loader::catalog_label_text;
use crate::path_order::{
    components_le, lemma_path_order_compares_components, path_order_codes, path_order_codes_of,
};
use crate::path_text::path_components;
use crate::path_text::{chars_of, file_stem};
use vstd::prelude::*;
use vstd::relations::{reflexive, strongly_connected, transitive};

verus! {

/// The code of `c` once ASCII upper case is folded to lower case.
pub open spec fn ascii_lower_code(c: char) -> u32 {
    if 'A' <= c && c <= 'Z' {
        ((c as u32) + 32) as u32
    } else {
        c as u32
    }
}

/// The character codes of a text with ASCII case folded.
pub open spec fn lowered_codes(s: Seq<char>) -> Seq<u32> {
    s.map_values(|c: char| ascii_lower_code(c))
}

/// Lexicographic order on code sequences; a proper prefix comes first.
pub open spec fn codes_le(a: Seq<u32>, b: Seq<u32>) -> bool
    decreases a.len(),
{
    if a.len() == 0 {
        true
    } else if b.len() == 0 {
        false
    } else if a[0] != b[0] {
        a[0] < b[0]
    } else {
        codes_le(a.drop_first(), b.drop_first())
    }
}

/// Catalog order on paths: case-folded label first, then path order (the
/// paths' components in turn, see `path_order`). Different texts for the same
/// components (`a//b.json`, `a/b.json`) tie.
pub open spec fn catalog_le(p: Seq<char>, q: Seq<char>) -> bool {
    let a = lowered_codes(catalog_label_text(p));
    let b = lowered_codes(catalog_label_text(q));
    if a != b {
        codes_le(a, b)
    } else {
        components_le(path_components(p), path_components(q))
    }
}

/// Catalog order as a relation.
pub open spec fn catalog_relation() -> spec_fn(Seq<char>, Seq<char>) -> bool {
    |p: Seq<char>, q: Seq<char>| catalog_le(p, q)
}

pub proof fn lemma_codes_le_reflexive(a: Seq<u32>)
    ensures
        codes_le(a, a),
    decreases a.len(),
{
    if a.len() > 0 {
        lemma_codes_le_reflexive(a.drop_first());
    }
}

pub proof fn lemma_codes_le_antisymmetric(a: Seq<u32>, b: Seq<u32>)
    requires
        codes_le(a, b),
        codes_le(b, a),
    ensures
        a == b,
    decreases a.len(),
{
    if a.len() > 0 && b.len() > 0 {
        lemma_codes_le_antisymmetric(a.drop_first(), b.drop_first());
        assert(a =~= seq![a[0]] + a.drop_first());
        assert(b =~= seq![b[0]] + b.drop_first());
    }
}

pub proof fn lemma_codes_le_transitive(a: Seq<u32>, b: Seq<u32>, c: Seq<u32>)
    requires
        codes_le(a, b),
        codes_le(b, c),
    ensures
        codes_le(a, c),
    decreases a.len(),
{
    if a.len() > 0 && b.len() > 0 && c.len() > 0 && a[0] == b[0] && b[0] == c[0] {
        lemma_codes_le_transitive(a.drop_first(), b.drop_first(), c.drop_first());
    }
}

pub proof fn lemma_codes_le_total(a: Seq<u32>, b: Seq<u32>)
    ensures
        codes_le(a, b) || codes_le(b, a),
    decreases a.len(),
{
    if a.len() > 0 && b.len() > 0 && a[0] == b[0] {
        lemma_codes_le_total(a.drop_first(), b.drop_first());
    }
}

/// Comparing past a common prefix.
pub proof fn lemma_codes_le_skip(a: Seq<u32>, b: Seq<u32>, i: int)
    requires
        0 <= i <= a.len(),
        i <= b.len(),
        forall|j: int| 0 <= j < i ==> a[j] == b[j],
    ensures
        codes_le(a, b) == codes_le(a.subrange(i, a.len() as int), b.subrange(i, b.len() as int)),
    decreases i,
{
    if i > 0 {
        lemma_codes_le_skip(a.drop_first(), b.drop_first(), i - 1);
        assert(a.drop_first().subrange(i - 1, a.len() - 1) =~= a.subrange(i, a.len() as int));
        assert(b.drop_first().subrange(i - 1, b.len() - 1) =~= b.subrange(i, b.len() as int));
    } else {
        assert(a.subrange(0, a.len() as int) =~= a);
        assert(b.subrange(0, b.len() as int) =~= b);
    }
}

/// Catalog order is a total preorder on paths: reflexive, transitive and total.
pub proof fn lemma_catalog_order_is_total_preorder()
    ensures
        reflexive(catalog_relation()),
        transitive(catalog_relation()),
        strongly_connected(catalog_relation()),
{
    let r = catalog_relation();
    assert forall|p: Seq<char>| #[trigger] r(p, p) by {
        lemma_codes_le_reflexive(path_order_codes(p));
        lemma_path_order_compares_components(p, p);
    }
    assert forall|p: Seq<char>, q: Seq<char>, s: Seq<char>| #[trigger] r(p, q) && #[trigger] r(
        q,
        s,
    ) implies r(p, s) by {
        lemma_catalog_le_transitive(p, q, s);
    }
    assert forall|p: Seq<char>, q: Seq<char>| #[trigger] r(p, q) || #[trigger] r(q, p) by {
        lemma_catalog_le_total(p, q);
    }
}

pub proof fn lemma_catalog_le_transitive(p: Seq<char>, q: Seq<char>, s: Seq<char>)
    requires
        catalog_le(p, q),
        catalog_le(q, s),
    ensures
        catalog_le(p, s),
{
    let a = lowered_codes(catalog_label_text(p));
    let b = lowered_codes(catalog_label_text(q));
    let c = lowered_codes(catalog_label_text(s));
    if a != b && b != c {
        lemma_codes_le_transitive(a, b, c);
        if a == c {
            lemma_codes_le_antisymmetric(a, b);
        }
    } else if a == b && b == c {
        lemma_path_order_compares_components(p, q);
        lemma_path_order_compares_components(q, s);
        lemma_path_order_compares_components(p, s);
        lemma_codes_le_transitive(path_order_codes(p), path_order_codes(q), path_order_codes(s));
    }
}

pub proof fn lemma_catalog_le_total(p: Seq<char>, q: Seq<char>)
    ensures
        catalog_le(p, q) || catalog_le(q, p),
{
    lemma_codes_le_total(lowered_codes(catalog_label_text(p)), lowered_codes(catalog_label_text(q)));
    lemma_codes_le_total(path_order_codes(p), path_order_codes(q));
    lemma_path_order_compares_components(p, q);
    lemma_path_order_compares_components(q, p);
}

/// The comparison key of one path, as code sequences.
pub(crate) struct CatalogKey {
    pub label: Vec<u32>,
    pub path: Vec<u32>,
}

impl CatalogKey {
    /// True when this key belongs to `path`.
    pub(crate) open spec fn is_key_of(&self, path: Seq<char>) -> bool {
        &&& self.label@ == lowered_codes(catalog_label_text(path))
        &&& self.path@ == path_order_codes(path)
    }
}

/// The character codes of `s` with ASCII case folded.
fn lowered_codes_of(s: &str) -> (v: Vec<u32>)
    ensures
        v@ == lowered_codes(s@),
{
    let chars = chars_of(s);
    let mut v: Vec<u32> = Vec::new();
    let mut i: usize = 0;
    while i < chars.len()
        invariant
            chars@ == s@,
            i <= chars.len(),
            v.len() == i,
            forall|j: int| 0 <= j < i ==> v@[j] == ascii_lower_code(s@[j]),
        decreases chars.len() - i,
    {
        let c = chars[i];
        let code: u32 = if 'A' <= c && c <= 'Z' {
            (c as u32) + 32
        } else {
            c as u32
        };
        v.push(code);
        i += 1;
    }
    assert(v@ =~= lowered_codes(s@));
    v
}

/// The comparison key of `path`.
pub(crate) fn catalog_key(path: &str) -> (k: CatalogKey)
    ensures
        k.is_key_of(path@),
{
    let label = match file_stem(path) {
        Some(stem) => lowered_codes_of(stem.as_str()),
        None => lowered_codes_of(path),
    };
    CatalogKey { label, path: path_order_codes_of(path) }
}

fn codes_le_exec(a: &Vec<u32>, b: &Vec<u32>) -> (r: bool)
    ensures
        r == codes_le(a@, b@),
{
    let mut i: usize = 0;
    while i < a.len() && i < b.len() && a[i] == b[i]
        invariant
            i <= a.len(),
            i <= b.len(),
            forall|j: int| 0 <= j < i ==> a@[j] == b@[j],
        decreases a.len() - i,
    {
        i += 1;
    }
    proof {
        lemma_codes_le_skip(a@, b@, i as int);
    }
    if i == a.len() {
        true
    } else if i == b.len() {
        false
    } else {
        a[i] < b[i]
    }
}

fn codes_eq_exec(a: &Vec<u32>, b: &Vec<u32>) -> (r: bool)
    ensures
        r == (a@ == b@),
{
    if a.len() != b.len() {
        return false;
    }
    let mut i: usize = 0;
    while i < a.len()
        invariant
            a.len() == b.len(),
            i <= a.len(),
            forall|j: int| 0 <= j < i ==> a@[j] == b@[j],
        decreases a.len() - i,
    {
        if a[i] != b[i] {
            return false;
        }
        i += 1;
    }
    assert(a@ =~= b@);
    true
}

/// Catalog order between two keyed paths.
pub(crate) fn catalog_key_le(a: &CatalogKey, b: &CatalogKey, Ghost(p): Ghost<Seq<char>>, Ghost(q): Ghost<Seq<char>>) -> (r: bool)
    requires
        a.is_key_of(p),
        b.is_key_of(q),
    ensures
        r == catalog_le(p, q),
{
    proof {
        lemma_path_order_compares_components(p, q);
    }
    if codes_eq_exec(&a.label, &b.label) {
        codes_le_exec(&a.path, &b.path)
    } else {
        codes_le_exec(&a.label, &b.label)
    }
}

} // verus!
