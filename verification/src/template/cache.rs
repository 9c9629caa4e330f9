//! The catalog cache file and the fingerprint that tells when it is stale.
//!
//! A fingerprint lists each template file with its modification time, sorted
//! by path, each path once. Paths are held as their components, which is how
//! paths compare: component by component, a root before `.`, `.` before `..`,
//! and those before ordinary names, which compare by their bytes.

use vstd::prelude::*;

verus! {

broadcast use vstd::seq_lib::group_seq_properties;

/// The version written into cache files; a file of another version is stale.
pub const CACHE_VERSION: u32 = 1;

/// The serialized catalog cache, stored under the user's cache directory.
pub struct CacheFile<C> {
    pub version: u32,
    /// Sorted list of (path, modification time in Unix seconds) for every
    /// template file.
    pub fingerprint: Vec<FingerprintEntry>,
    pub catalog: C,
}

/// One component of a file path.
#[derive(Debug)]
pub enum PathComponent {
    /// The root directory, `/`.
    RootDir,
    /// A `.` at the start of a relative path.
    CurDir,
    /// A `..`.
    ParentDir,
    /// An ordinary name, as its bytes.
    Normal(Vec<u8>),
}

/// A template file and its modification time in seconds since the Unix epoch.
#[derive(Debug)]
pub struct FingerprintEntry {
    pub path: Vec<PathComponent>,
    pub mtime: u64,
}

/// A component as a rank (root, `.`, `..`, name) and the bytes of a name.
pub type ComponentKey = (int, Seq<u8>);

/// A path as the keys of its components.
pub type PathKey = Seq<ComponentKey>;

/// The key of a component.
pub open spec fn component_key(c: PathComponent) -> ComponentKey {
    match c {
        PathComponent::RootDir => (0, seq![]),
        PathComponent::CurDir => (1, seq![]),
        PathComponent::ParentDir => (2, seq![]),
        PathComponent::Normal(b) => (3, b@),
    }
}

/// The key of a path.
pub open spec fn path_key(p: Seq<PathComponent>) -> PathKey {
    p.map_values(|c: PathComponent| component_key(c))
}

/// An entry as its path key and modification time.
pub open spec fn entry_view(e: FingerprintEntry) -> (PathKey, u64) {
    (path_key(e.path@), e.mtime)
}

/// A list of entries as keys and times.
pub open spec fn entries_view(v: Seq<FingerprintEntry>) -> Seq<(PathKey, u64)> {
    v.map_values(|e: FingerprintEntry| entry_view(e))
}

/// Byte strings in dictionary order; a proper prefix comes first.
pub open spec fn bytes_lt(a: Seq<u8>, b: Seq<u8>) -> bool
    decreases a.len(),
{
    if a.len() == 0 {
        b.len() > 0
    } else if b.len() == 0 {
        false
    } else if a[0] < b[0] {
        true
    } else if a[0] == b[0] {
        bytes_lt(a.drop_first(), b.drop_first())
    } else {
        false
    }
}

/// Components in order: by rank, then names by their bytes.
pub open spec fn component_lt(a: ComponentKey, b: ComponentKey) -> bool {
    a.0 < b.0 || (a.0 == b.0 && bytes_lt(a.1, b.1))
}

/// Paths in order: component by component; a proper prefix comes first.
pub open spec fn path_lt(a: PathKey, b: PathKey) -> bool
    decreases a.len(),
{
    if a.len() == 0 {
        b.len() > 0
    } else if b.len() == 0 {
        false
    } else if component_lt(a[0], b[0]) {
        true
    } else if a[0] == b[0] {
        path_lt(a.drop_first(), b.drop_first())
    } else {
        false
    }
}

/// Entries in strictly increasing path order: sorted, each path once.
pub open spec fn sorted_unique(v: Seq<(PathKey, u64)>) -> bool {
    forall|i: int, j: int| 0 <= i < j < v.len() ==> path_lt(#[trigger] v[i].0, #[trigger] v[j].0)
}

/// The position of the first entry, at or after `i`, whose path is `p`.
pub open spec fn first_with_path_from(v: Seq<(PathKey, u64)>, p: PathKey, i: int) -> Option<int>
    decreases v.len() - i,
{
    if i < 0 || i >= v.len() {
        None
    } else if v[i].0 == p {
        Some(i)
    } else {
        first_with_path_from(v, p, i + 1)
    }
}

/// The first entry for each path: `out` holds, in increasing path order,
/// exactly the paths of `input`, each with the entry that comes first for
/// it in `input`.
pub open spec fn is_normalized_from(out: Seq<(PathKey, u64)>, input: Seq<(PathKey, u64)>) -> bool {
    &&& sorted_unique(out)
    &&& forall|i: int| 0 <= i < out.len() ==> (first_with_path_from(input, #[trigger] out[i].0, 0) matches Some(j)
        && input[j] == out[i])
    &&& forall|j: int| 0 <= j < input.len() ==> path_listed(out, #[trigger] input[j].0)
}

/// Some entry of `v` has path `p`.
pub open spec fn path_listed(v: Seq<(PathKey, u64)>, p: PathKey) -> bool {
    exists|i: int| 0 <= i < v.len() && #[trigger] v[i].0 == p
}

// ── Order lemmas ─────────────────────────────────────────────────────────────

pub proof fn lemma_bytes_lt_irreflexive(a: Seq<u8>)
    ensures
        !bytes_lt(a, a),
    decreases a.len(),
{
    if a.len() > 0 {
        lemma_bytes_lt_irreflexive(a.drop_first());
    }
}

pub proof fn lemma_bytes_lt_total(a: Seq<u8>, b: Seq<u8>)
    ensures
        a == b || bytes_lt(a, b) || bytes_lt(b, a),
        !(bytes_lt(a, b) && bytes_lt(b, a)),
    decreases a.len(),
{
    if a.len() > 0 && b.len() > 0 && a[0] == b[0] {
        lemma_bytes_lt_total(a.drop_first(), b.drop_first());
        if a.drop_first() == b.drop_first() {
            assert(a =~= seq![a[0]] + a.drop_first());
            assert(b =~= seq![b[0]] + b.drop_first());
        }
    } else if a.len() == 0 && b.len() == 0 {
        assert(a =~= b);
    }
}

pub proof fn lemma_bytes_lt_transitive(a: Seq<u8>, b: Seq<u8>, c: Seq<u8>)
    requires
        bytes_lt(a, b),
        bytes_lt(b, c),
    ensures
        bytes_lt(a, c),
    decreases a.len(),
{
    if a.len() > 0 && b.len() > 0 && c.len() > 0 && a[0] == b[0] && b[0] == c[0] {
        lemma_bytes_lt_transitive(a.drop_first(), b.drop_first(), c.drop_first());
    }
}

pub proof fn lemma_component_lt_total(a: ComponentKey, b: ComponentKey)
    ensures
        a == b || component_lt(a, b) || component_lt(b, a),
        !(component_lt(a, b) && component_lt(b, a)),
        !component_lt(a, a),
{
    lemma_bytes_lt_total(a.1, b.1);
    lemma_bytes_lt_irreflexive(a.1);
}

pub proof fn lemma_component_lt_transitive(a: ComponentKey, b: ComponentKey, c: ComponentKey)
    requires
        component_lt(a, b),
        component_lt(b, c),
    ensures
        component_lt(a, c),
{
    if a.0 == b.0 && b.0 == c.0 {
        lemma_bytes_lt_transitive(a.1, b.1, c.1);
    }
}

/// No path comes before itself.
pub proof fn lemma_path_lt_irreflexive(a: PathKey)
    ensures
        !path_lt(a, a),
    decreases a.len(),
{
    if a.len() > 0 {
        lemma_component_lt_total(a[0], a[0]);
        lemma_path_lt_irreflexive(a.drop_first());
    }
}

/// Of two different paths, exactly one comes first.
pub proof fn lemma_path_lt_total(a: PathKey, b: PathKey)
    ensures
        a == b || path_lt(a, b) || path_lt(b, a),
        !(path_lt(a, b) && path_lt(b, a)),
    decreases a.len(),
{
    if a.len() > 0 && b.len() > 0 {
        lemma_component_lt_total(a[0], b[0]);
        if a[0] == b[0] {
            lemma_path_lt_total(a.drop_first(), b.drop_first());
            if a.drop_first() == b.drop_first() {
                assert(a =~= seq![a[0]] + a.drop_first());
                assert(b =~= seq![b[0]] + b.drop_first());
            }
        }
    } else if a.len() == 0 && b.len() == 0 {
        assert(a =~= b);
    }
}

/// The path order is transitive.
pub proof fn lemma_path_lt_transitive(a: PathKey, b: PathKey, c: PathKey)
    requires
        path_lt(a, b),
        path_lt(b, c),
    ensures
        path_lt(a, c),
    decreases a.len(),
{
    if a.len() > 0 && b.len() > 0 && c.len() > 0 {
        lemma_component_lt_total(a[0], b[0]);
        lemma_component_lt_total(b[0], c[0]);
        lemma_component_lt_total(a[0], c[0]);
        if component_lt(a[0], b[0]) && component_lt(b[0], c[0]) {
            lemma_component_lt_transitive(a[0], b[0], c[0]);
        } else if a[0] == b[0] && b[0] == c[0] {
            lemma_path_lt_transitive(a.drop_first(), b.drop_first(), c.drop_first());
        }
    }
}


// ── Comparing paths ──────────────────────────────────────────────────────────

/// How two paths (or parts of them) compare.
#[derive(Debug, Clone, Copy, PartialEq, Eq, Structural)]
pub enum PathOrder {
    Less,
    Same,
    Greater,
}

/// Compares two byte strings in dictionary order.
pub fn compare_bytes(a: &Vec<u8>, b: &Vec<u8>) -> (r: PathOrder)
    ensures
        r is Less <==> bytes_lt(a@, b@),
        r is Same <==> a@ == b@,
        r is Greater <==> bytes_lt(b@, a@),
{
    proof {
        lemma_bytes_lt_total(a@, b@);
        lemma_bytes_lt_irreflexive(a@);
    }
    let n = a.len();
    let m = b.len();
    let mut i: usize = 0;
    assert(a@.skip(0) =~= a@ && b@.skip(0) =~= b@);
    while i < n && i < m
        invariant
            n == a@.len(),
            m == b@.len(),
            i <= n,
            i <= m,
            a@.take(i as int) == b@.take(i as int),
            bytes_lt(a@, b@) == bytes_lt(a@.skip(i as int), b@.skip(i as int)),
            bytes_lt(b@, a@) == bytes_lt(b@.skip(i as int), a@.skip(i as int)),
        decreases n - i,
    {
        assert(a@.skip(i as int)[0] == a@[i as int]);
        assert(b@.skip(i as int)[0] == b@[i as int]);
        if a[i] < b[i] {
            return PathOrder::Less;
        }
        if a[i] > b[i] {
            return PathOrder::Greater;
        }
        assert(a@.skip(i as int).drop_first() =~= a@.skip(i + 1));
        assert(b@.skip(i as int).drop_first() =~= b@.skip(i + 1));
        assert(a@.take(i + 1) =~= a@.take(i as int).push(a@[i as int]));
        assert(b@.take(i + 1) =~= b@.take(i as int).push(b@[i as int]));
        i = i + 1;
    }
    if n == m {
        assert(a@ =~= a@.take(i as int));
        assert(b@ =~= b@.take(i as int));
        PathOrder::Same
    } else if n < m {
        PathOrder::Less
    } else {
        PathOrder::Greater
    }
}

/// Compares two path components.
pub fn compare_component(a: &PathComponent, b: &PathComponent) -> (r: PathOrder)
    ensures
        r is Less <==> component_lt(component_key(*a), component_key(*b)),
        r is Same <==> component_key(*a) == component_key(*b),
        r is Greater <==> component_lt(component_key(*b), component_key(*a)),
{
    proof {
        lemma_component_lt_total(component_key(*a), component_key(*b));
    }
    let ra: u8 = match a {
        PathComponent::RootDir => 0,
        PathComponent::CurDir => 1,
        PathComponent::ParentDir => 2,
        PathComponent::Normal(_) => 3,
    };
    let rb: u8 = match b {
        PathComponent::RootDir => 0,
        PathComponent::CurDir => 1,
        PathComponent::ParentDir => 2,
        PathComponent::Normal(_) => 3,
    };
    if ra < rb {
        PathOrder::Less
    } else if ra > rb {
        PathOrder::Greater
    } else {
        match (a, b) {
            (PathComponent::Normal(x), PathComponent::Normal(y)) => compare_bytes(x, y),
            _ => {
                proof {
                    lemma_bytes_lt_irreflexive(Seq::<u8>::empty());
                }
                PathOrder::Same
            },
        }
    }
}

/// Compares two paths component by component.
pub fn compare_path(a: &Vec<PathComponent>, b: &Vec<PathComponent>) -> (r: PathOrder)
    ensures
        r is Less <==> path_lt(path_key(a@), path_key(b@)),
        r is Same <==> path_key(a@) == path_key(b@),
        r is Greater <==> path_lt(path_key(b@), path_key(a@)),
{
    let ghost ka = path_key(a@);
    let ghost kb = path_key(b@);
    proof {
        lemma_path_lt_total(ka, kb);
        lemma_path_lt_irreflexive(ka);
    }
    let n = a.len();
    let m = b.len();
    let mut i: usize = 0;
    assert(ka.skip(0) =~= ka && kb.skip(0) =~= kb);
    while i < n && i < m
        invariant
            n == a@.len(),
            m == b@.len(),
            ka == path_key(a@),
            kb == path_key(b@),
            i <= n,
            i <= m,
            ka.take(i as int) == kb.take(i as int),
            path_lt(ka, kb) == path_lt(ka.skip(i as int), kb.skip(i as int)),
            path_lt(kb, ka) == path_lt(kb.skip(i as int), ka.skip(i as int)),
        decreases n - i,
    {
        assert(ka.skip(i as int)[0] == ka[i as int]);
        assert(kb.skip(i as int)[0] == kb[i as int]);
        match compare_component(&a[i], &b[i]) {
            PathOrder::Less => {
                return PathOrder::Less;
            },
            PathOrder::Greater => {
                return PathOrder::Greater;
            },
            PathOrder::Same => {},
        }
        proof {
            lemma_component_lt_total(ka[i as int], kb[i as int]);
        }
        assert(ka.skip(i as int).drop_first() =~= ka.skip(i + 1));
        assert(kb.skip(i as int).drop_first() =~= kb.skip(i + 1));
        assert(ka.take(i + 1) =~= ka.take(i as int).push(ka[i as int]));
        assert(kb.take(i + 1) =~= kb.take(i as int).push(kb[i as int]));
        i = i + 1;
    }
    if n == m {
        assert(ka =~= ka.take(i as int));
        assert(kb =~= kb.take(i as int));
        PathOrder::Same
    } else if n < m {
        PathOrder::Less
    } else {
        PathOrder::Greater
    }
}


// ── Normalizing a fingerprint ────────────────────────────────────────────────

/// Where `first_with_path_from` finds something, it finds the path there.
proof fn lemma_first_found(v: Seq<(PathKey, u64)>, p: PathKey, i: int)
    requires
        0 <= i,
    ensures
        first_with_path_from(v, p, i) matches Some(j) ==> i <= j < v.len() && v[j].0 == p,
        first_with_path_from(v, p, i) is None ==> forall|j: int| i <= j < v.len() ==> #[trigger] v[j].0 != p,
    decreases v.len() - i,
{
    if i < v.len() {
        lemma_first_found(v, p, i + 1);
    }
}

/// Adding an entry at the end does not move the first entry of a path that is already there.
proof fn lemma_first_push_keep(v: Seq<(PathKey, u64)>, x: (PathKey, u64), p: PathKey, i: int)
    requires
        0 <= i,
        first_with_path_from(v, p, i) is Some,
    ensures
        first_with_path_from(v.push(x), p, i) == first_with_path_from(v, p, i),
    decreases v.len() - i,
{
    if i < v.len() && v[i].0 != p {
        lemma_first_push_keep(v, x, p, i + 1);
    }
}

/// An entry added at the end is the first of its path when no earlier entry has that path.
proof fn lemma_first_push_new(v: Seq<(PathKey, u64)>, x: (PathKey, u64), i: int)
    requires
        0 <= i <= v.len(),
        forall|j: int| i <= j < v.len() ==> #[trigger] v[j].0 != x.0,
    ensures
        first_with_path_from(v.push(x), x.0, i) == Some(v.len() as int),
    decreases v.len() - i,
{
    if i < v.len() {
        lemma_first_push_new(v, x, i + 1);
    }
}

/// The first entries found for the paths already listed stay the same when
/// one more entry is added at the end.
proof fn lemma_firsts_kept(ov: Seq<(PathKey, u64)>, before: Seq<(PathKey, u64)>, ev: (PathKey, u64))
    requires
        is_normalized_from(ov, before),
    ensures
        forall|i: int| 0 <= i < ov.len() ==> (first_with_path_from(before.push(ev), #[trigger] ov[i].0, 0) matches Some(j)
            && before.push(ev)[j] == ov[i]),
{
    assert forall|i: int| 0 <= i < ov.len() implies (first_with_path_from(before.push(ev), #[trigger] ov[i].0, 0) matches Some(j)
        && before.push(ev)[j] == ov[i]) by {
        lemma_first_push_keep(before, ev, ov[i].0, 0);
        lemma_first_found(before, ov[i].0, 0);
    }
}

/// An entry whose path is already listed leaves the normalized list as it is.
proof fn lemma_add_listed(ov: Seq<(PathKey, u64)>, before: Seq<(PathKey, u64)>, ev: (PathKey, u64), p: int)
    requires
        is_normalized_from(ov, before),
        0 <= p < ov.len(),
        ov[p].0 == ev.0,
    ensures
        is_normalized_from(ov, before.push(ev)),
{
    lemma_firsts_kept(ov, before, ev);
    let after = before.push(ev);
    assert forall|j: int| 0 <= j < after.len() implies exists|i: int| 0 <= i < ov.len() && #[trigger] ov[i].0 == #[trigger] after[j].0 by {
        if j < before.len() {
            assert(after[j] == before[j]);
        } else {
            assert(ov[p].0 == after[j].0);
        }
    }
}

/// An entry of a new path goes in at the place that keeps the list sorted.
proof fn lemma_add_new(ov: Seq<(PathKey, u64)>, before: Seq<(PathKey, u64)>, ev: (PathKey, u64), p: int)
    requires
        is_normalized_from(ov, before),
        0 <= p <= ov.len(),
        forall|q: int| 0 <= q < p ==> path_lt(#[trigger] ov[q].0, ev.0),
        p < ov.len() ==> ov[p].0 != ev.0 && !path_lt(ov[p].0, ev.0),
    ensures
        is_normalized_from(ov.insert(p, ev), before.push(ev)),
{
    let len = ov.len() as int;
    let after = before.push(ev);
    if p < len {
        lemma_path_lt_total(ov[p].0, ev.0);
    }
    assert forall|q: int| p <= q < len implies path_lt(ev.0, #[trigger] ov[q].0) by {
        if q > p {
            lemma_path_lt_transitive(ev.0, ov[p].0, ov[q].0);
        }
    }
    lemma_path_lt_irreflexive(ev.0);
    assert forall|j: int| 0 <= j < before.len() implies #[trigger] before[j].0 != ev.0 by {
        let i = choose|i: int| 0 <= i < ov.len() && #[trigger] ov[i].0 == #[trigger] before[j].0;
        if i < p {
            assert(path_lt(ov[i].0, ev.0));
        } else {
            assert(path_lt(ev.0, ov[i].0));
        }
    }
    lemma_first_push_new(before, ev, 0);
    lemma_firsts_kept(ov, before, ev);
    let nv = ov.insert(p, ev);
    assert forall|i: int, j: int| 0 <= i < j < nv.len() implies path_lt(#[trigger] nv[i].0, #[trigger] nv[j].0) by {
        if j < p {
        } else if j == p {
        } else if i < p {
            lemma_path_lt_transitive(nv[i].0, ev.0, nv[j].0);
        } else if i == p {
        } else {
        }
    }
    assert forall|i: int| 0 <= i < nv.len() implies (first_with_path_from(after, #[trigger] nv[i].0, 0) matches Some(j)
        && after[j] == nv[i]) by {
        if i < p {
            assert(nv[i] == ov[i]);
        } else if i > p {
            assert(nv[i] == ov[i - 1]);
        }
    }
    assert forall|j: int| 0 <= j < after.len() implies exists|i: int| 0 <= i < nv.len() && #[trigger] nv[i].0 == #[trigger] after[j].0 by {
        if j < before.len() {
            let i = choose|i: int| 0 <= i < ov.len() && #[trigger] ov[i].0 == #[trigger] before[j].0;
            if i < p {
                assert(nv[i] == ov[i]);
            } else {
                assert(nv[i + 1] == ov[i]);
            }
        } else {
            assert(nv[p].0 == after[j].0);
        }
    }
}

/// Sorts fingerprint entries by path and keeps, for each path, only the
/// entry that comes first in the input (entries of the global directory are
/// listed before those of the local one, so the global one wins).
pub fn normalize_fingerprint(entries: Vec<FingerprintEntry>) -> (r: Vec<FingerprintEntry>)
    ensures
        is_normalized_from(entries_view(r@), entries_view(entries@)),
{
    let ghost input = entries_view(entries@);
    let n = entries.len();
    let mut entries = entries;
    let mut rev: Vec<FingerprintEntry> = Vec::new();
    while entries.len() > 0
        invariant
            entries@.len() + rev@.len() == n,
            n == input.len(),
            forall|i: int| 0 <= i < entries@.len() ==> entry_view(#[trigger] entries@[i]) == input[i],
            forall|i: int| 0 <= i < rev@.len() ==> entry_view(#[trigger] rev@[i]) == input[n - 1 - i],
        decreases entries@.len(),
    {
        let e = entries.pop().unwrap();
        rev.push(e);
    }
    let mut out: Vec<FingerprintEntry> = Vec::new();
    let mut k: usize = 0;
    proof {
        assert(input.take(0) =~= Seq::<(PathKey, u64)>::empty());
        assert(entries_view(out@) =~= Seq::<(PathKey, u64)>::empty());
    }
    while rev.len() > 0
        invariant
            n == input.len(),
            k + rev@.len() == n,
            forall|i: int| 0 <= i < rev@.len() ==> entry_view(#[trigger] rev@[i]) == input[n - 1 - i],
            is_normalized_from(entries_view(out@), input.take(k as int)),
        decreases rev@.len(),
    {
        let e = rev.pop().unwrap();
        let ghost ev = entry_view(e);
        let ghost ov = entries_view(out@);
        let ghost before = input.take(k as int);
        assert(ev == input[k as int]);
        assert(input.take(k + 1) =~= before.push(ev));
        let len = out.len();
        let mut p: usize = 0;
        while p < len && compare_path(&out[p].path, &e.path) == PathOrder::Less
            invariant
                len == out@.len(),
                p <= len,
                ov == entries_view(out@),
                ev == entry_view(e),
                forall|q: int| 0 <= q < p ==> path_lt(#[trigger] ov[q].0, ev.0),
            decreases len - p,
        {
            p = p + 1;
        }
        let same = p < len && compare_path(&out[p].path, &e.path) == PathOrder::Same;
        if same {
            proof {
                lemma_add_listed(ov, before, ev, p as int);
            }
        } else {
            proof {
                lemma_add_new(ov, before, ev, p as int);
            }
            out.insert(p, e);
            assert(entries_view(out@) =~= ov.insert(p as int, ev));
        }
        k = k + 1;
    }
    assert(input.take(n as int) =~= input);
    out
}

/// The paths of a list of entries.
pub open spec fn paths_of(v: Seq<(PathKey, u64)>) -> Seq<PathKey> {
    v.map_values(|e: (PathKey, u64)| e.0)
}

/// Two strictly increasing lists of paths that hold the same paths are equal.
proof fn lemma_sorted_paths_equal(a: Seq<PathKey>, b: Seq<PathKey>)
    requires
        forall|i: int, j: int| 0 <= i < j < a.len() ==> path_lt(#[trigger] a[i], #[trigger] a[j]),
        forall|i: int, j: int| 0 <= i < j < b.len() ==> path_lt(#[trigger] b[i], #[trigger] b[j]),
        forall|x: PathKey| a.contains(x) <==> b.contains(x),
    ensures
        a == b,
    decreases a.len(),
{
    if a.len() == 0 {
        if b.len() > 0 {
            assert(b.contains(b[0]));
        }
        assert(a =~= b);
    } else {
        assert(a.contains(a[0]));
        assert(b.len() > 0) by {
            if b.len() == 0 {
                assert(!b.contains(a[0]));
            }
        }
        assert(b.contains(b[0]));
        let j = choose|j: int| 0 <= j < b.len() && b[j] == a[0];
        let i = choose|i: int| 0 <= i < a.len() && a[i] == b[0];
        if j > 0 && i > 0 {
            assert(path_lt(b[0], b[j]));
            assert(path_lt(a[0], a[i]));
            lemma_path_lt_total(a[0], b[0]);
            assert(false);
        }
        assert(a[0] == b[0]) by {
            if j == 0 {
            } else {
                assert(i == 0);
            }
        }
        let ta = a.drop_first();
        let tb = b.drop_first();
        assert forall|x: PathKey| ta.contains(x) <==> tb.contains(x) by {
            if ta.contains(x) {
                let k = choose|k: int| 0 <= k < ta.len() && ta[k] == x;
                assert(path_lt(a[0], a[k + 1]));
                lemma_path_lt_irreflexive(a[0]);
                assert(b.contains(x));
                let m = choose|m: int| 0 <= m < b.len() && b[m] == x;
                assert(m != 0);
                assert(tb[m - 1] == x);
            }
            if tb.contains(x) {
                let k = choose|k: int| 0 <= k < tb.len() && tb[k] == x;
                assert(path_lt(b[0], b[k + 1]));
                lemma_path_lt_irreflexive(b[0]);
                assert(a.contains(x));
                let m = choose|m: int| 0 <= m < a.len() && a[m] == x;
                assert(m != 0);
                assert(ta[m - 1] == x);
            }
        }
        assert forall|i: int, j: int| 0 <= i < j < ta.len() implies path_lt(#[trigger] ta[i], #[trigger] ta[j]) by {
            assert(ta[i] == a[i + 1] && ta[j] == a[j + 1]);
        }
        assert forall|i: int, j: int| 0 <= i < j < tb.len() implies path_lt(#[trigger] tb[i], #[trigger] tb[j]) by {
            assert(tb[i] == b[i + 1] && tb[j] == b[j + 1]);
        }
        lemma_sorted_paths_equal(ta, tb);
        assert(a =~= seq![a[0]] + ta);
        assert(b =~= seq![b[0]] + tb);
    }
}

/// A normalized fingerprint holds exactly the paths of its input.
proof fn lemma_normalized_paths(out: Seq<(PathKey, u64)>, input: Seq<(PathKey, u64)>, x: PathKey)
    requires
        is_normalized_from(out, input),
    ensures
        paths_of(out).contains(x) <==> paths_of(input).contains(x),
{
    if paths_of(out).contains(x) {
        let i = choose|i: int| 0 <= i < out.len() && paths_of(out)[i] == x;
        assert(out[i].0 == x);
        let j = first_with_path_from(input, out[i].0, 0)->0;
        lemma_first_found(input, x, 0);
        assert(paths_of(input)[j] == x);
    }
    if paths_of(input).contains(x) {
        let j = choose|j: int| 0 <= j < input.len() && paths_of(input)[j] == x;
        assert(input[j].0 == x);
        let i = choose|i: int| 0 <= i < out.len() && #[trigger] out[i].0 == #[trigger] input[j].0;
        assert(paths_of(out)[i] == x);
    }
}

/// Normalizing a fingerprint has one possible result: two lists normalized
/// from the same input are equal.
pub proof fn lemma_normalized_unique(a: Seq<(PathKey, u64)>, b: Seq<(PathKey, u64)>, input: Seq<(PathKey, u64)>)
    requires
        is_normalized_from(a, input),
        is_normalized_from(b, input),
    ensures
        a == b,
{
    let pa = paths_of(a);
    let pb = paths_of(b);
    assert forall|x: PathKey| pa.contains(x) <==> pb.contains(x) by {
        lemma_normalized_paths(a, input, x);
        lemma_normalized_paths(b, input, x);
    }
    assert forall|i: int, j: int| 0 <= i < j < pa.len() implies path_lt(#[trigger] pa[i], #[trigger] pa[j]) by {
        assert(pa[i] == a[i].0 && pa[j] == a[j].0);
    }
    assert forall|i: int, j: int| 0 <= i < j < pb.len() implies path_lt(#[trigger] pb[i], #[trigger] pb[j]) by {
        assert(pb[i] == b[i].0 && pb[j] == b[j].0);
    }
    lemma_sorted_paths_equal(pa, pb);
    assert forall|i: int| 0 <= i < a.len() implies a[i] == b[i] by {
        assert(pa[i] == pb[i]);
        assert(a[i].0 == b[i].0);
    }
    assert(a =~= b);
}

/// In a strictly increasing list, the first entry of each path is the entry itself.
proof fn lemma_sorted_first(v: Seq<(PathKey, u64)>, i: int, from: int)
    requires
        sorted_unique(v),
        0 <= from <= i < v.len(),
    ensures
        first_with_path_from(v, v[i].0, from) == Some(i),
    decreases i - from,
{
    if from < i {
        assert(path_lt(v[from].0, v[i].0));
        lemma_path_lt_irreflexive(v[i].0);
        lemma_sorted_first(v, i, from + 1);
    }
}

/// Normalizing is idempotent: a normalized fingerprint normalizes to itself.
pub proof fn lemma_normalize_idempotent(input: Seq<(PathKey, u64)>, once: Seq<(PathKey, u64)>, twice: Seq<(PathKey, u64)>)
    requires
        is_normalized_from(once, input),
        is_normalized_from(twice, once),
    ensures
        twice == once,
{
    assert forall|i: int| 0 <= i < once.len() implies (first_with_path_from(once, #[trigger] once[i].0, 0) matches Some(j)
        && once[j] == once[i]) by {
        lemma_sorted_first(once, i, 0);
    }
    assert forall|j: int| 0 <= j < once.len() implies exists|i: int| 0 <= i < once.len() && #[trigger] once[i].0 == #[trigger] once[j].0 by {
        assert(once[j].0 == once[j].0);
    }
    assert(is_normalized_from(once, once));
    lemma_normalized_unique(twice, once, once);
}


/// Entries of equal paths are equal.
pub open spec fn paths_agree(v: Seq<(PathKey, u64)>) -> bool {
    forall|i: int, j: int| 0 <= i < v.len() && 0 <= j < v.len() && (#[trigger] v[i]).0 == (#[trigger] v[j]).0 ==> v[i] == v[j]
}

/// Every entry of `x` is an entry of `y`.
pub open spec fn entries_within(x: Seq<(PathKey, u64)>, y: Seq<(PathKey, u64)>) -> bool {
    forall|i: int| 0 <= i < x.len() ==> y.contains(#[trigger] x[i])
}

proof fn lemma_concat_within(a: Seq<(PathKey, u64)>, b: Seq<(PathKey, u64)>)
    ensures
        entries_within(a + b, b + a),
        entries_within(b + a, a + b),
{
    assert forall|i: int| 0 <= i < (a + b).len() implies (b + a).contains(#[trigger] (a + b)[i]) by {
        if i < a.len() {
            assert((b + a)[b.len() + i] == (a + b)[i]);
        } else {
            assert((b + a)[i - a.len()] == (a + b)[i]);
        }
    }
    assert forall|i: int| 0 <= i < (b + a).len() implies (a + b).contains(#[trigger] (b + a)[i]) by {
        if i < b.len() {
            assert((a + b)[a.len() + i] == (b + a)[i]);
        } else {
            assert((a + b)[i - b.len()] == (b + a)[i]);
        }
    }
}

/// The first entry of a path in `y` is the entry that `x` holds for it, when
/// `x` and `y` hold the same entries and equal paths carry equal entries.
proof fn lemma_first_carries_over(x: Seq<(PathKey, u64)>, y: Seq<(PathKey, u64)>, k: int)
    requires
        0 <= k < x.len(),
        paths_agree(x),
        entries_within(x, y),
        entries_within(y, x),
    ensures
        first_with_path_from(y, x[k].0, 0) matches Some(j) && y[j] == x[k],
{
    let p = x[k].0;
    assert(y.contains(x[k]));
    let j0 = choose|j: int| 0 <= j < y.len() && y[j] == x[k];
    lemma_first_found(y, p, 0);
    if first_with_path_from(y, p, 0) is None {
        assert(y[j0].0 != p);
    }
    let j = first_with_path_from(y, p, 0)->0;
    assert(x.contains(y[j]));
    let m = choose|m: int| 0 <= m < x.len() && x[m] == y[j];
    assert(x[m].0 == x[k].0);
}

/// A list normalized from `x` is also normalized from any `y` that holds
/// the same entries, when equal paths carry equal entries.
proof fn lemma_normalized_from_same_entries(out: Seq<(PathKey, u64)>, x: Seq<(PathKey, u64)>, y: Seq<(PathKey, u64)>)
    requires
        is_normalized_from(out, x),
        paths_agree(x),
        entries_within(x, y),
        entries_within(y, x),
    ensures
        is_normalized_from(out, y),
{
    assert forall|i: int| 0 <= i < out.len() implies (first_with_path_from(y, #[trigger] out[i].0, 0) matches Some(j)
        && y[j] == out[i]) by {
        let k = first_with_path_from(x, out[i].0, 0)->0;
        lemma_first_found(x, out[i].0, 0);
        assert(x[k] == out[i]);
        lemma_first_carries_over(x, y, k);
        assert(x[k].0 == out[i].0);
    }
    assert forall|j: int| 0 <= j < y.len() implies path_listed(out, #[trigger] y[j].0) by {
        lemma_covered(out, x, y[j]);
    }
}

/// An entry of `x` has its path listed in a list normalized from `x`.
proof fn lemma_covered(out: Seq<(PathKey, u64)>, x: Seq<(PathKey, u64)>, e: (PathKey, u64))
    requires
        is_normalized_from(out, x),
        x.contains(e),
    ensures
        path_listed(out, e.0),
{
    let k = choose|k: int| 0 <= k < x.len() && x[k] == e;
    assert(path_listed(out, x[k].0));
}

/// The fingerprint of two directories does not depend on which is listed
/// first, when a path listed twice carries the same entry each time (as it
/// does when both lists read the same file system): normalizing `a + b` and
/// `b + a` gives the same result.
pub proof fn lemma_normalize_order_independent(
    a: Seq<(PathKey, u64)>,
    b: Seq<(PathKey, u64)>,
    ab_out: Seq<(PathKey, u64)>,
    ba_out: Seq<(PathKey, u64)>,
)
    requires
        paths_agree(a + b),
        is_normalized_from(ab_out, a + b),
        is_normalized_from(ba_out, b + a),
    ensures
        ab_out == ba_out,
{
    lemma_concat_within(a, b);
    lemma_normalized_from_same_entries(ab_out, a + b, b + a);
    lemma_normalized_unique(ab_out, ba_out, b + a);
}

} // verus!
