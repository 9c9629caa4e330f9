//! HashiCorp Vault references (`vault://mount/path#field`) and the decisions
//! of the Vault resolver.

use vstd::prelude::*;
use crate::secrets::error::SecretError;
use crate::secrets::{is_valid_path_segment, lemma_plain_values_are_valid_segments, reports_fault, segment_fault, validate_path_segment, SegmentFault};
use crate::text::{char_is_control, char_is_whitespace};
use crate::split::{lacks, nonempty_segments, segments, starts_with, strip_prefix};
use crate::text::{join, join_strings, views};

verus! {

broadcast use vstd::seq_lib::group_seq_properties;

/// The scheme prefix of a Vault reference.
pub open spec fn vault_prefix() -> Seq<char> {
    seq!['v', 'a', 'u', 'l', 't', ':', '/', '/']
}

/// The first position at or after `i` where `c` occurs in `s`.
pub open spec fn first_index_from(s: Seq<char>, c: char, i: int) -> Option<int>
    decreases s.len() - i,
{
    if i < 0 || i >= s.len() {
        None
    } else if s[i] == c {
        Some(i)
    } else {
        first_index_from(s, c, i + 1)
    }
}

/// What follows `vault://`.
pub open spec fn vault_body(reference: Seq<char>) -> Seq<char> {
    reference.skip(8)
}

/// Where the first `#` stands in the body of a reference.
pub open spec fn vault_hash(reference: Seq<char>) -> Option<int> {
    first_index_from(vault_body(reference), '#', 0)
}

/// The field named after the first `#`.
pub open spec fn vault_field(reference: Seq<char>, hash: int) -> Seq<char> {
    vault_body(reference).skip(hash + 1)
}

/// The non-empty `/`-separated segments before the first `#`: the mount
/// point followed by the secret path.
pub open spec fn vault_segments(reference: Seq<char>, hash: int) -> Seq<Seq<char>> {
    segments(vault_body(reference).take(hash), '/')
}

/// The name under which the `i`-th checked value is reported: the mount
/// point, then each secret path segment, then the field.
pub open spec fn check_name(i: int, n_segments: int) -> Seq<char> {
    if i == 0 {
        "mount point"@
    } else if i < n_segments {
        "secret path segment"@
    } else {
        "field name"@
    }
}

/// The first value, at or after `i`, that is not a valid path segment, and
/// what is wrong with it.
pub open spec fn first_fault_from(values: Seq<Seq<char>>, i: int) -> Option<(int, SegmentFault)>
    decreases values.len() - i,
{
    if i < 0 || i >= values.len() {
        None
    } else {
        match segment_fault(values[i]) {
            Some(f) => Some((i, f)),
            None => first_fault_from(values, i + 1),
        }
    }
}

/// A parsed `vault://mount/path#field` reference.
#[derive(Debug)]
pub struct VaultReference {
    pub mount: String,
    pub path: String,
    pub field: String,
}

/// `r` is what parsing `reference` gives: `vault://` must start it; the
/// first `#` must follow, with a non-empty field after it; the path before
/// the `#` must have at least two non-empty `/`-separated segments; and the
/// mount point, each secret path segment and the field must be valid path
/// segments, checked in that order.
pub open spec fn vault_parse_meets(reference: Seq<char>, r: Result<VaultReference, SecretError>) -> bool {
    let s = reference;
    &&& !starts_with(s, vault_prefix()) ==> (r matches Err(
        SecretError::VaultMissingPrefix,
    ))
    &&& starts_with(s, vault_prefix()) && vault_hash(s) is None ==> (r matches Err(
        SecretError::VaultMissingField { reference: shown },
    ) && shown@ == s)
    &&& starts_with(s, vault_prefix()) ==> (vault_hash(s) matches Some(h) ==> {
        let field = vault_field(s, h);
        let segs = vault_segments(s, h);
        let checks = segs.push(field);
        &&& field.len() == 0 ==> (r matches Err(
            SecretError::VaultEmptyField { reference: shown },
        ) && shown@ == s)
        &&& field.len() > 0 && segs.len() < 2 ==> (r matches Err(
            SecretError::VaultMalformed { reference: shown },
        ) && shown@ == s)
        &&& field.len() > 0 && segs.len() >= 2 ==> match first_fault_from(checks, 0) {
            Some((i, fault)) => r matches Err(e) && reports_fault(
                e,
                fault,
                check_name(i, segs.len() as int),
            ),
            None => r matches Ok(v) && v.mount@ == segs[0] && v.path@ == join(
                segs.skip(1),
                "/"@,
            ) && v.field@ == field,
        }
    })
}

/// Parsing `reference` succeeds.
pub open spec fn vault_accepts(s: Seq<char>) -> bool {
    &&& starts_with(s, vault_prefix())
    &&& vault_hash(s) matches Some(h) && {
        &&& vault_field(s, h).len() > 0
        &&& vault_segments(s, h).len() >= 2
        &&& first_fault_from(vault_segments(s, h).push(vault_field(s, h)), 0) is None
    }
}

fn vault_prefix_str() -> (r: &'static str)
    ensures
        r@ == vault_prefix(),
{
    proof {
        reveal_strlit("vault://");
    }
    "vault://"
}

/// The first position of `c` in `s`.
fn find_char(s: &str, c: char) -> (r: Option<usize>)
    ensures
        r matches Some(i) ==> first_index_from(s@, c, 0) == Some(i as int) && i < s@.len(),
        r is None ==> first_index_from(s@, c, 0) is None,
{
    let n = s.unicode_len();
    let mut i: usize = 0;
    while i < n
        invariant
            n == s@.len(),
            i <= n,
            first_index_from(s@, c, 0) == first_index_from(s@, c, i as int),
        decreases n - i,
    {
        if s.get_char(i) == c {
            return Some(i);
        }
        i = i + 1;
    }
    None
}

fn mount_point_name() -> (r: &'static str)
    ensures
        r@ == check_name(0, 2),
{
    proof {
        reveal_strlit("mount point");
    }
    "mount point"
}

fn path_segment_name() -> (r: &'static str)
    ensures
        r@ == "secret path segment"@,
{
    "secret path segment"
}

fn field_name_name() -> (r: &'static str)
    ensures
        r@ == "field name"@,
{
    "field name"
}

impl VaultReference {
    /// Parses `vault://mount/path#field`.
    ///
    /// The first `#` separates the path from the field, which must not be
    /// empty. The path is split at `/` with empty pieces dropped; the first
    /// piece is the mount point and the others, joined by `/`, the secret
    /// path, of which there must be at least one piece. The mount point, each
    /// piece of the secret path and the field must then be valid path
    /// segments, checked in that order.
    #[verifier::loop_isolation(false)]
    pub fn parse(reference: &str) -> (r: Result<VaultReference, SecretError>)
        ensures
            vault_parse_meets(reference@, r),
            r is Ok <==> vault_accepts(reference@),
    {
        let after = match strip_prefix(reference, vault_prefix_str()) {
            Some(a) => a,
            None => {
                return Err(SecretError::VaultMissingPrefix);
            },
        };
        let ghost s = reference@;
        assert(after@ == vault_body(s));
        let hash = match find_char(after, '#') {
            Some(h) => h,
            None => {
                return Err(SecretError::VaultMissingField { reference: String::from_str(reference) });
            },
        };
        let n = after.unicode_len();
        if hash + 1 == n {
            assert(vault_field(s, hash as int).len() == 0);
            return Err(SecretError::VaultEmptyField { reference: String::from_str(reference) });
        }
        let full_path = after.substring_char(0, hash);
        let field = after.substring_char(hash + 1, n);
        assert(field@ == vault_field(s, hash as int));
        let segs = nonempty_segments(full_path, '/');
        let ghost gsegs = vault_segments(s, hash as int);
        assert(views(segs@) == gsegs);
        if segs.len() < 2 {
            return Err(SecretError::VaultMalformed { reference: String::from_str(reference) });
        }
        let ghost checks = gsegs.push(field@);
        let count = segs.len();
        assert(segs@[0]@ == checks[0]);
        match validate_path_segment(segs[0].as_str(), mount_point_name()) {
            Err(e) => {
                return Err(e);
            },
            Ok(()) => {},
        }
        let mut rest: Vec<String> = Vec::new();
        let mut j: usize = 1;
        while j < count
            invariant
                count == segs@.len(),
                count >= 2,
                1 <= j <= count,
                checks == gsegs.push(field@),
                gsegs == views(segs@),
                first_fault_from(checks, 0) == first_fault_from(checks, j as int),
                views(rest@) == gsegs.subrange(1, j as int),
            decreases count - j,
        {
            assert(segs@[j as int]@ == checks[j as int]);
            match validate_path_segment(segs[j].as_str(), path_segment_name()) {
                Err(e) => {
                    return Err(e);
                },
                Ok(()) => {},
            }
            let ghost before = rest@;
            rest.push(segs[j].clone());
            assert(rest@ =~= before.push(segs@[j as int]));
            assert(views(rest@) =~= views(before).push(segs@[j as int]@));
            assert(views(rest@) =~= gsegs.subrange(1, j + 1));
            j = j + 1;
        }
        assert(checks[count as int] == field@);
        match validate_path_segment(field, field_name_name()) {
            Err(e) => {
                return Err(e);
            },
            Ok(()) => {},
        }
        assert(first_fault_from(checks, count + 1) is None);
        assert(gsegs.subrange(1, count as int) =~= gsegs.skip(1));
        let path = join_strings(&rest, "/");
        Ok(VaultReference { mount: segs[0].clone(), path, field: String::from_str(field) })
    }
}


/// A text with every character unequal to `c` finds no `c` from `i` on.
proof fn lemma_no_index(s: Seq<char>, c: char, i: int)
    requires
        0 <= i <= s.len(),
        lacks(s, c),
    ensures
        first_index_from(s, c, i) is None,
    decreases s.len() - i,
{
    if i < s.len() {
        lemma_no_index(s, c, i + 1);
    }
}

/// The first `c` in `a + [c] + b` stands right after `a` when `a` lacks `c`.
proof fn lemma_first_index_after(a: Seq<char>, b: Seq<char>, c: char, i: int)
    requires
        0 <= i <= a.len(),
        lacks(a, c),
    ensures
        first_index_from(a + seq![c] + b, c, i) == Some(a.len() as int),
    decreases a.len() - i,
{
    if i < a.len() {
        lemma_first_index_after(a, b, c, i + 1);
    }
}

/// A valid path segment holds neither `/` nor `#`.
proof fn lemma_valid_segment_lacks(s: Seq<char>)
    requires
        is_valid_path_segment(s),
    ensures
        lacks(s, '/'),
        lacks(s, '#'),
{
    crate::secrets::lemma_first_unsafe_none(s, 0);
}

/// Joining pieces that lack `c` with `/` gives a text that lacks `c`, when `c` is not `/`.
proof fn lemma_join_lacks(pieces: Seq<Seq<char>>, c: char)
    requires
        c != '/',
        forall|i: int| 0 <= i < pieces.len() ==> lacks(#[trigger] pieces[i], c),
    ensures
        lacks(join(pieces, seq!['/']), c),
    decreases pieces.len(),
{
    if pieces.len() > 1 {
        lemma_join_lacks(pieces.drop_last(), c);
        assert(lacks(pieces.drop_last()[0], c));
        assert(lacks(pieces.last(), c));
    } else if pieces.len() == 1 {
        assert(lacks(pieces[0], c));
    }
}

/// Splitting the `/`-join of non-empty pieces without `/` gives the pieces back.
proof fn lemma_segments_of_join(pieces: Seq<Seq<char>>)
    requires
        pieces.len() >= 1,
        forall|i: int| 0 <= i < pieces.len() ==> (#[trigger] pieces[i]).len() > 0 && lacks(pieces[i], '/'),
    ensures
        segments(join(pieces, seq!['/']), '/') == pieces,
    decreases pieces.len(),
{
    if pieces.len() == 1 {
        crate::split::lemma_segments_single(pieces[0], '/');
        assert(seq![pieces[0]] =~= pieces);
    } else {
        let init = pieces.drop_last();
        assert(forall|i: int| 0 <= i < init.len() ==> #[trigger] init[i] == pieces[i]);
        lemma_segments_of_join(init);
        crate::split::lemma_segments_concat(join(init, seq!['/']), pieces.last(), '/');
        crate::split::lemma_segments_single(pieces.last(), '/');
        assert(init + seq![pieces.last()] =~= pieces);
    }
}

/// No value from `i` on has a fault when all of them are valid path segments.
proof fn lemma_no_fault(values: Seq<Seq<char>>, i: int)
    requires
        0 <= i <= values.len(),
        forall|j: int| 0 <= j < values.len() ==> is_valid_path_segment(#[trigger] values[j]),
    ensures
        first_fault_from(values, i) is None,
    decreases values.len() - i,
{
    if i < values.len() {
        assert(is_valid_path_segment(values[i]));
        lemma_no_fault(values, i + 1);
    }
}

/// No value from `i` on has a fault exactly when each of them is a valid path segment.
proof fn lemma_no_fault_from_means_valid(values: Seq<Seq<char>>, i: int)
    requires
        0 <= i <= values.len(),
        first_fault_from(values, i) is None,
    ensures
        forall|j: int| i <= j < values.len() ==> is_valid_path_segment(#[trigger] values[j]),
    decreases values.len() - i,
{
    if i < values.len() {
        crate::secrets::lemma_first_unsafe_none(values[i], 0);
        lemma_no_fault_from_means_valid(values, i + 1);
    }
}

/// What a successful parse hands out is safe to place in a URL: when no
/// checked value has a fault (the case in which `parse` succeeds), the mount
/// point, every piece of the secret path and the field are each non-empty
/// and hold no `/`, `?`, `#`, whitespace or control character.
pub proof fn lemma_accepted_parts_are_safe(reference: Seq<char>, hash: int)
    requires
        vault_segments(reference, hash).len() >= 2,
        first_fault_from(vault_segments(reference, hash).push(vault_field(reference, hash)), 0) is None,
    ensures
        forall|i: int| 0 <= i < vault_segments(reference, hash).len() ==> is_valid_path_segment(
            #[trigger] vault_segments(reference, hash)[i],
        ),
        is_valid_path_segment(vault_field(reference, hash)),
{
    let segs = vault_segments(reference, hash);
    let checks = segs.push(vault_field(reference, hash));
    lemma_no_fault_from_means_valid(checks, 0);
    assert forall|i: int| 0 <= i < segs.len() implies is_valid_path_segment(#[trigger] segs[i]) by {
        assert(checks[i] == segs[i]);
    }
    assert(checks[segs.len() as int] == vault_field(reference, hash));
}

/// A reference written as `vault://mount/p1/.../pk#field` from valid path
/// segments parses back to that mount point, the secret path `p1/.../pk` and
/// that field: the first `#` ends the path, the path splits into the mount
/// point and the pieces, and no value is refused.
pub proof fn lemma_vault_reference_roundtrip(mount: Seq<char>, path: Seq<Seq<char>>, field: Seq<char>)
    requires
        is_valid_path_segment(mount),
        path.len() >= 1,
        forall|i: int| 0 <= i < path.len() ==> is_valid_path_segment(#[trigger] path[i]),
        is_valid_path_segment(field),
    ensures
        ({
            let text = vault_prefix() + mount + seq!['/'] + join(path, "/"@) + seq!['#'] + field;
            &&& starts_with(text, vault_prefix())
            &&& vault_hash(text) matches Some(h) && {
                let segs = vault_segments(text, h);
                &&& vault_field(text, h) == field
                &&& segs == seq![mount] + path
                &&& first_fault_from(segs.push(field), 0) is None
                &&& join(segs.skip(1), "/"@) == join(path, "/"@)
            }
        }),
{
    reveal_strlit("/");
    assert("/"@ =~= seq!['/']);
    let joined = join(path, seq!['/']);
    let text = vault_prefix() + mount + seq!['/'] + joined + seq!['#'] + field;
    assert(text.take(8) =~= vault_prefix());
    let head = mount + seq!['/'] + joined;
    assert(vault_body(text) =~= head + seq!['#'] + field);
    lemma_valid_segment_lacks(mount);
    lemma_valid_segment_lacks(field);
    assert forall|i: int| 0 <= i < path.len() implies (#[trigger] path[i]).len() > 0 && lacks(path[i], '/')
        && lacks(path[i], '#') by {
        lemma_valid_segment_lacks(path[i]);
    }
    lemma_join_lacks(path, '#');
    assert(lacks(head, '#'));
    lemma_first_index_after(head, field, '#', 0);
    let h = head.len() as int;
    assert(vault_body(text).take(h) =~= head);
    assert(vault_body(text).skip(h + 1) =~= field);
    lemma_segments_of_join(path);
    crate::split::lemma_segments_concat(mount, joined, '/');
    crate::split::lemma_segments_single(mount, '/');
    let segs = seq![mount] + path;
    let checks = segs.push(field);
    assert forall|j: int| 0 <= j < checks.len() implies is_valid_path_segment(#[trigger] checks[j]) by {
        if j == 0 {
        } else if j < segs.len() {
            assert(checks[j] == path[j - 1]);
        } else {
            assert(checks[j] == field);
        }
    }
    lemma_no_fault(checks, 0);
    assert(segs.skip(1) =~= path);
}


/// A reference `vault://mount/p1/.../pk#field` whose mount point, path
/// pieces and field are non-empty and hold no `/`, `?`, `#`, whitespace or
/// control character parses to exactly that mount point, the secret path
/// `p1/.../pk` and that field: any result that meets `parse`'s contract is
/// that reference.
pub proof fn lemma_plain_vault_reference_parses(
    mount: Seq<char>,
    path: Seq<Seq<char>>,
    field: Seq<char>,
    r: Result<VaultReference, SecretError>,
)
    requires
        mount.len() > 0,
        forall|i: int| 0 <= i < mount.len() ==> {
            let c = #[trigger] mount[i];
            c != '/' && c != '?' && c != '#' && !char_is_whitespace(c) && !char_is_control(c)
        },
        path.len() >= 1,
        forall|k: int| 0 <= k < path.len() ==> (#[trigger] path[k]).len() > 0,
        forall|k: int, i: int| 0 <= k < path.len() && 0 <= i < path[k].len() ==> {
            let c = #[trigger] path[k][i];
            c != '/' && c != '?' && c != '#' && !char_is_whitespace(c) && !char_is_control(c)
        },
        field.len() > 0,
        forall|i: int| 0 <= i < field.len() ==> {
            let c = #[trigger] field[i];
            c != '/' && c != '?' && c != '#' && !char_is_whitespace(c) && !char_is_control(c)
        },
        vault_parse_meets(vault_prefix() + mount + seq!['/'] + join(path, "/"@) + seq!['#'] + field, r),
    ensures
        r matches Ok(v) && v.mount@ == mount && v.path@ == join(path, "/"@) && v.field@ == field,
{
    lemma_plain_values_are_valid_segments(mount);
    lemma_plain_values_are_valid_segments(field);
    assert forall|k: int| 0 <= k < path.len() implies is_valid_path_segment(#[trigger] path[k]) by {
        let p = path[k];
        assert forall|i: int| 0 <= i < p.len() implies {
            let c = #[trigger] p[i];
            c != '/' && c != '?' && c != '#' && !char_is_whitespace(c) && !char_is_control(c)
        } by {
            assert(p[i] == path[k][i]);
        }
        lemma_plain_values_are_valid_segments(p);
    }
    lemma_vault_reference_roundtrip(mount, path, field);
    let text = vault_prefix() + mount + seq!['/'] + join(path, "/"@) + seq!['#'] + field;
    let h = vault_hash(text)->0;
    assert(vault_segments(text, h)[0] == mount);
}

/// Resolver for HashiCorp Vault secrets named by `vault://` references.
///
/// It reads a KV version 2 secrets engine at `VAULT_ADDR` with the token in
/// `VAULT_TOKEN`; references are written `vault://mount/path#field`, where
/// `mount` is the engine's mount point, `path` the secret's path within it
/// and `field` the key to take from the secret's data.
pub struct VaultResolver;

/// The address and token the resolver connects with.
#[derive(Debug)]
pub struct VaultCredentials {
    pub addr: String,
    pub token: String,
}

/// The first entry, at or after `i`, whose key is `key`.
pub open spec fn first_key_from(data: Seq<(String, String)>, key: Seq<char>, i: int) -> Option<int>
    decreases data.len() - i,
{
    if i < 0 || i >= data.len() {
        None
    } else if data[i].0@ == key {
        Some(i)
    } else {
        first_key_from(data, key, i + 1)
    }
}

/// The keys of a secret's data, in the order given.
pub open spec fn data_keys(data: Seq<(String, String)>) -> Seq<Seq<char>> {
    data.map_values(|e: (String, String)| e.0@)
}

impl VaultResolver {
    pub fn new() -> (r: VaultResolver)
        ensures
            r == VaultResolver,
    {
        VaultResolver
    }

    /// The URI scheme this resolver serves.
    pub fn scheme(&self) -> (r: &'static str)
        ensures
            r@ == "vault"@,
    {
        "vault"
    }

    /// The address and token to connect with; both must be present and
    /// non-empty.
    pub fn credentials(addr: Option<String>, token: Option<String>) -> (r: Result<
        VaultCredentials,
        SecretError,
    >)
        ensures
            (addr matches Some(a) && a@.len() > 0) && (token matches Some(t) && t@.len() > 0)
                ==> (r matches Ok(c) && Some(c.addr) == addr && Some(c.token) == token),
            !((addr matches Some(a) && a@.len() > 0) && (token matches Some(t) && t@.len() > 0))
                ==> (r matches Err(SecretError::VaultCredentialsMissing)),
    {
        let addr = match addr {
            Some(a) => if a.as_str().unicode_len() > 0 {
                a
            } else {
                return Err(SecretError::VaultCredentialsMissing);
            },
            None => {
                return Err(SecretError::VaultCredentialsMissing);
            },
        };
        let token = match token {
            Some(t) => if t.as_str().unicode_len() > 0 {
                t
            } else {
                return Err(SecretError::VaultCredentialsMissing);
            },
            None => {
                return Err(SecretError::VaultCredentialsMissing);
            },
        };
        Ok(VaultCredentials { addr, token })
    }

    /// Takes the requested field out of a secret's data, given as its
    /// key-value entries; the error lists the keys in the order given.
    pub fn select_field(reference: &VaultReference, data: &Vec<(String, String)>) -> (r: Result<
        String,
        SecretError,
    >)
        ensures
            match first_key_from(data@, reference.field@, 0) {
                Some(i) => r matches Ok(v) && v@ == data@[i].1@,
                None => r matches Err(
                    SecretError::VaultFieldNotFound { field, mount, path, available },
                ) && field@ == reference.field@ && mount@ == reference.mount@ && path@
                    == reference.path@ && views(available@) == data_keys(data@),
            },
    {
        let n = data.len();
        let mut i: usize = 0;
        while i < n
            invariant
                n == data@.len(),
                i <= n,
                first_key_from(data@, reference.field@, 0) == first_key_from(
                    data@,
                    reference.field@,
                    i as int,
                ),
            decreases n - i,
        {
            if data[i].0 == reference.field {
                return Ok(data[i].1.clone());
            }
            i = i + 1;
        }
        let mut keys: Vec<String> = Vec::new();
        let mut k: usize = 0;
        while k < n
            invariant
                n == data@.len(),
                k <= n,
                views(keys@) == data_keys(data@).take(k as int),
            decreases n - k,
        {
            let ghost before = keys@;
            keys.push(data[k].0.clone());
            assert(keys@ =~= before.push(data@[k as int].0));
            assert(views(keys@) =~= views(before).push(data@[k as int].0@));
            assert(data_keys(data@).take(k + 1) =~= data_keys(data@).take(k as int).push(
                data@[k as int].0@,
            ));
            k = k + 1;
        }
        assert(data_keys(data@).take(n as int) =~= data_keys(data@));
        Err(SecretError::VaultFieldNotFound {
            field: reference.field.clone(),
            mount: reference.mount.clone(),
            path: reference.path.clone(),
            available: keys,
        })
    }
}

/// The address and token the settings give, when both are present and not empty.
pub open spec fn given_credentials(addr: Option<String>, token: Option<String>) -> bool {
    (addr matches Some(a) && a@.len() > 0) && (token matches Some(t) && t@.len() > 0)
}

impl VaultResolver {
    /// Everything a lookup decides before it talks to Vault, in the order
    /// the resolver takes it: the reference is parsed first, so a bad
    /// reference is refused whatever the settings are; then the address and
    /// token are checked. Only with both returned here is Vault contacted.
    pub fn prepare(reference: &str, addr: Option<String>, token: Option<String>) -> (r: Result<
        (VaultReference, VaultCredentials),
        SecretError,
    >)
        ensures
            !vault_accepts(reference@) ==> (r matches Err(e) && vault_parse_meets(reference@, Err(e))),
            vault_accepts(reference@) && !given_credentials(addr, token) ==> (r matches Err(
                SecretError::VaultCredentialsMissing,
            )),
            vault_accepts(reference@) && given_credentials(addr, token) ==> (r matches Ok((v, c))
                && vault_parse_meets(reference@, Ok(v)) && Some(c.addr) == addr && Some(c.token)
                == token),
    {
        let parsed = match VaultReference::parse(reference) {
            Ok(p) => p,
            Err(e) => {
                return Err(e);
            },
        };
        let creds = match VaultResolver::credentials(addr, token) {
            Ok(c) => c,
            Err(e) => {
                return Err(e);
            },
        };
        Ok((parsed, creds))
    }
}

impl Default for VaultResolver {
    fn default() -> (r: VaultResolver)
        ensures
            r == VaultResolver,
    {
        VaultResolver::new()
    }
}

} // verus!
