//! 1Password references (`op://vault/item/field`) and the decisions of the
//! 1Password resolver.

use vstd::prelude::*;
use crate::secrets::error::SecretError;
use crate::split::{lacks, lemma_segments_concat, lemma_segments_single, nonempty_segments, segments, starts_with, strip_prefix};
use crate::text::views;

verus! {

broadcast use vstd::seq_lib::group_seq_properties;

/// The scheme prefix of a 1Password reference.
pub open spec fn op_prefix() -> Seq<char> {
    seq!['o', 'p', ':', '/', '/']
}

/// The path segments of a 1Password reference that starts with `op://`.
pub open spec fn op_segments(reference: Seq<char>) -> Seq<Seq<char>> {
    segments(reference.skip(5), '/')
}

/// A parsed `op://vault/item/field` reference.
#[derive(Debug)]
pub struct OpReference {
    pub vault: String,
    pub item: String,
    pub field: String,
}

/// Parsing `reference` succeeds: it starts with `op://` and has exactly
/// three non-empty path segments.
pub open spec fn op_accepts(reference: Seq<char>) -> bool {
    starts_with(reference, op_prefix()) && op_segments(reference).len() == 3
}

/// `r` is what parsing `reference` gives: without `op://` in front it is
/// refused as such; with a number of non-empty segments other than three it
/// is refused as malformed; otherwise the three segments are the vault, the
/// item and the field.
pub open spec fn op_parse_meets(reference: Seq<char>, r: Result<OpReference, SecretError>) -> bool {
    &&& !starts_with(reference, op_prefix()) ==> (r matches Err(SecretError::OpMissingPrefix))
    &&& starts_with(reference, op_prefix()) && op_segments(reference).len() != 3 ==> (r matches Err(
        SecretError::OpMalformed { reference: shown },
    ) && shown@ == reference)
    &&& op_accepts(reference) ==> (r matches Ok(o) && o.vault@ == op_segments(reference)[0]
        && o.item@ == op_segments(reference)[1] && o.field@ == op_segments(reference)[2])
}

fn op_prefix_str() -> (r: &'static str)
    ensures
        r@ == op_prefix(),
{
    proof {
        reveal_strlit("op://");
    }
    "op://"
}

impl OpReference {
    /// Parses `op://vault/item/field`.
    ///
    /// The text after `op://` is split at `/`; empty pieces are dropped, and
    /// exactly three must remain: vault, item and field.
    pub fn parse(reference: &str) -> (r: Result<OpReference, SecretError>)
        ensures
            op_parse_meets(reference@, r),
            r is Ok <==> op_accepts(reference@),
    {
        let path = match strip_prefix(reference, op_prefix_str()) {
            Some(p) => p,
            None => {
                return Err(SecretError::OpMissingPrefix);
            },
        };
        let mut segs = nonempty_segments(path, '/');
        if segs.len() != 3 {
            return Err(SecretError::OpMalformed { reference: String::from_str(reference) });
        }
        proof {
            assert(views(segs@)[0] == segs@[0]@);
            assert(views(segs@)[1] == segs@[1]@);
            assert(views(segs@)[2] == segs@[2]@);
        }
        let field = segs.pop().unwrap();
        let item = segs.pop().unwrap();
        let vault = segs.pop().unwrap();
        Ok(OpReference { vault, item, field })
    }
}

/// Parsing gives back the vault, item and field of a reference written as
/// `op://vault/item/field`, when each is non-empty and holds no `/`.
pub proof fn lemma_op_reference_roundtrip(vault: Seq<char>, item: Seq<char>, field: Seq<char>)
    requires
        vault.len() > 0,
        item.len() > 0,
        field.len() > 0,
        lacks(vault, '/'),
        lacks(item, '/'),
        lacks(field, '/'),
    ensures
        ({
            let text = op_prefix() + vault + seq!['/'] + item + seq!['/'] + field;
            &&& starts_with(text, op_prefix())
            &&& op_segments(text) == seq![vault, item, field]
        }),
{
    let text = op_prefix() + vault + seq!['/'] + item + seq!['/'] + field;
    assert(text.take(5) =~= op_prefix());
    assert(text.skip(5) =~= (vault + seq!['/'] + item) + seq!['/'] + field);
    lemma_segments_concat(vault + seq!['/'] + item, field, '/');
    lemma_segments_concat(vault, item, '/');
    lemma_segments_single(vault, '/');
    lemma_segments_single(item, '/');
    lemma_segments_single(field, '/');
    assert(seq![vault] + seq![item] + seq![field] =~= seq![vault, item, field]);
}


/// Resolver for 1Password secrets named by `op://` references.
///
/// It authenticates either with a service-account token
/// (`OP_SERVICE_ACCOUNT_TOKEN`) or with a Connect server (`OP_CONNECT_TOKEN`
/// and `OP_CONNECT_HOST`), and reads references of the form
/// `op://vault/item/field`.
pub struct OpResolver;

/// How the resolver authenticates against 1Password.
#[derive(Debug)]
pub enum OpAuth {
    ServiceAccount { token: String },
    Connect { host: String, token: String },
}

/// One entry of the `fields` array of a 1Password item, each part present
/// only where the response held a string there.
#[derive(Debug)]
pub struct OpField {
    pub label: Option<String>,
    pub id: Option<String>,
    pub value: Option<String>,
}

/// The address of the 1Password events API used with a service account.
pub open spec fn service_account_base_url() -> Seq<char> {
    "https://events.1password.com"@
}

/// A value that is present and not empty.
pub open spec fn present(v: Option<String>) -> bool {
    v matches Some(s) && s@.len() > 0
}

/// `s` with every trailing `c` removed.
pub open spec fn trim_end(s: Seq<char>, c: char) -> Seq<char>
    decreases s.len(),
{
    if s.len() > 0 && s.last() == c {
        trim_end(s.drop_last(), c)
    } else {
        s
    }
}

/// The URL of an item in the 1Password API.
pub open spec fn item_url_text(base: Seq<char>, vault: Seq<char>, item: Seq<char>) -> Seq<char> {
    trim_end(base, '/') + "/v1/vaults/"@ + vault + "/items/"@ + item
}

/// Whether the field matches the requested name by label or by id.
pub open spec fn field_matches(f: OpField, name: Seq<char>) -> bool {
    (f.label matches Some(l) && l@ == name) || (f.id matches Some(i) && i@ == name)
}

/// The first field, at or after `i`, that matches `name`.
pub open spec fn first_match_from(fields: Seq<OpField>, name: Seq<char>, i: int) -> Option<int>
    decreases fields.len() - i,
{
    if i < 0 || i >= fields.len() {
        None
    } else if field_matches(fields[i], name) {
        Some(i)
    } else {
        first_match_from(fields, name, i + 1)
    }
}

/// The name a field is listed under: its label, or else its id.
pub open spec fn listed_name(f: OpField) -> Option<Seq<char>> {
    match f.label {
        Some(l) => Some(l@),
        None => match f.id {
            Some(i) => Some(i@),
            None => None,
        },
    }
}

/// The names of the fields, in order, skipping those with neither label nor id.
pub open spec fn listed_names(fields: Seq<OpField>) -> Seq<Seq<char>>
    decreases fields.len(),
{
    if fields.len() == 0 {
        seq![]
    } else {
        match listed_name(fields.last()) {
            Some(n) => listed_names(fields.drop_last()).push(n),
            None => listed_names(fields.drop_last()),
        }
    }
}

/// The secret that a 1Password item gives for a reference: the value of the
/// first field whose label or id equals the requested field.
pub open spec fn selected_value(fields: Seq<OpField>, name: Seq<char>) -> Option<Seq<char>> {
    match first_match_from(fields, name, 0) {
        Some(i) => match fields[i].value {
            Some(v) => Some(v@),
            None => None,
        },
        None => None,
    }
}

/// Status codes 200-299, which `StatusCode::is_success` reports as success.
pub open spec fn is_success_status(status: u16) -> bool {
    200 <= status < 300
}

impl OpResolver {
    pub fn new() -> (r: OpResolver)
        ensures
            r == OpResolver,
    {
        OpResolver
    }

    /// The URI scheme this resolver serves.
    pub fn scheme(&self) -> (r: &'static str)
        ensures
            r@ == "op"@,
    {
        "op"
    }

    /// The address of the item that a reference names.
    pub fn item_url(auth: &OpAuth, reference: &OpReference) -> (r: String)
        ensures
            r@ == item_url_text(auth.base_url_text(), reference.vault@, reference.item@),
    {
        let base = trim_end_slashes(auth.base_url());
        String::from_str(base).concat("/v1/vaults/").concat(reference.vault.as_str()).concat(
            "/items/",
        ).concat(reference.item.as_str())
    }

    /// The `Authorization` header value sent with each request.
    pub fn authorization(auth: &OpAuth) -> (r: String)
        ensures
            r@ == "Bearer "@ + auth.token_text(),
    {
        String::from_str("Bearer ").concat(auth.token())
    }

    /// Whether an HTTP status counts as success (200-299).
    pub fn is_success(status: u16) -> (r: bool)
        ensures
            r == is_success_status(status),
    {
        200 <= status && status < 300
    }

    /// The error for a response whose status is not a success.
    pub fn status_error(status: u16, body: String) -> (r: SecretError)
        ensures
            r matches SecretError::OpHttpStatus { status: s, body: b } && s == status && b@ == body@,
    {
        SecretError::OpHttpStatus { status, body }
    }

    /// Picks the secret out of an item's `fields` array.
    ///
    /// The first field whose label or id equals the requested field gives the
    /// secret; it must carry a string value. Otherwise the error lists the
    /// fields by label, or by id where a field has no label.
    pub fn select_field(reference: &OpReference, fields: Option<&Vec<OpField>>) -> (r: Result<
        String,
        SecretError,
    >)
        ensures
            fields is None ==> (r matches Err(SecretError::OpFieldsMissing)),
            fields matches Some(fs) ==> match selected_value(fs@, reference.field@) {
                Some(v) => r matches Ok(s) && s@ == v,
                None => r matches Err(
                    SecretError::OpFieldNotFound { field, vault, item, available },
                ) && field@ == reference.field@ && vault@ == reference.vault@ && item@
                    == reference.item@ && views(available@) == listed_names(fs@),
            },
    {
        let fs = match fields {
            Some(fs) => fs,
            None => {
                return Err(SecretError::OpFieldsMissing);
            },
        };
        if let Some(i) = find_field(fs, &reference.field) {
            if let Some(v) = &fs[i].value {
                return Ok(v.clone());
            }
        }
        Err(SecretError::OpFieldNotFound {
            field: reference.field.clone(),
            vault: reference.vault.clone(),
            item: reference.item.clone(),
            available: listed_field_names(fs),
        })
    }
}

/// From `from` on, the first field named `name` by its label or by its id
/// (whichever it has) is found, skipping only fields named otherwise.
proof fn lemma_first_match_at(fields: Seq<OpField>, name: Seq<char>, from: int, i: int)
    requires
        0 <= from <= i < fields.len(),
        (fields[i].label is Some && fields[i].label->0@ == name) || (fields[i].id is Some
            && fields[i].id->0@ == name),
        forall|k: int| from <= k < i ==> !((#[trigger] fields[k]).label is Some && fields[k].label->0@ == name)
            && !(fields[k].id is Some && fields[k].id->0@ == name),
    ensures
        first_match_from(fields, name, from) == Some(i),
    decreases i - from,
{
    if from < i {
        lemma_first_match_at(fields, name, from + 1, i);
    }
}

/// With no field named `name` from `from` on, none is found.
proof fn lemma_no_match(fields: Seq<OpField>, name: Seq<char>, from: int)
    requires
        0 <= from <= fields.len(),
        forall|k: int| from <= k < fields.len() ==> !((#[trigger] fields[k]).label is Some && fields[k].label->0@
            == name) && !(fields[k].id is Some && fields[k].id->0@ == name),
    ensures
        first_match_from(fields, name, from) is None,
    decreases fields.len() - from,
{
    if from < fields.len() {
        lemma_no_match(fields, name, from + 1);
    }
}

/// The secret comes from the first field whose label or whose id equals the
/// requested name, whatever the other of the two is: its value, or nothing
/// when that field has no string value. When no field is so named there is
/// no secret.
pub proof fn lemma_first_named_field_gives_the_secret(fields: Seq<OpField>, name: Seq<char>, i: int)
    requires
        0 <= i < fields.len(),
        (fields[i].label is Some && fields[i].label->0@ == name) || (fields[i].id is Some
            && fields[i].id->0@ == name),
        forall|k: int| 0 <= k < i ==> !((#[trigger] fields[k]).label is Some && fields[k].label->0@ == name)
            && !(fields[k].id is Some && fields[k].id->0@ == name),
    ensures
        fields[i].value matches Some(v) ==> selected_value(fields, name) == Some(v@),
        fields[i].value is None ==> selected_value(fields, name) is None,
{
    lemma_first_match_at(fields, name, 0, i);
}

/// When no field's label or id equals the requested name there is no secret.
pub proof fn lemma_unnamed_field_gives_no_secret(fields: Seq<OpField>, name: Seq<char>)
    requires
        forall|k: int| 0 <= k < fields.len() ==> !((#[trigger] fields[k]).label is Some && fields[k].label->0@
            == name) && !(fields[k].id is Some && fields[k].id->0@ == name),
    ensures
        selected_value(fields, name) is None,
{
    lemma_no_match(fields, name, 0);
}

/// The position of the first field whose label or id equals `name`.
fn find_field(fields: &Vec<OpField>, name: &String) -> (r: Option<usize>)
    ensures
        r matches Some(i) ==> i < fields@.len() && first_match_from(fields@, name@, 0) == Some(i as int),
        r is None ==> first_match_from(fields@, name@, 0) is None,
{
    let n = fields.len();
    let mut i: usize = 0;
    while i < n
        invariant
            n == fields@.len(),
            i <= n,
            first_match_from(fields@, name@, 0) == first_match_from(fields@, name@, i as int),
        decreases n - i,
    {
        let f = &fields[i];
        let by_label = match &f.label {
            Some(l) => *l == *name,
            None => false,
        };
        let by_id = match &f.id {
            Some(d) => *d == *name,
            None => false,
        };
        if by_label || by_id {
            return Some(i);
        }
        i = i + 1;
    }
    None
}

/// Collects the labels (or ids) of the fields, as the not-found error lists them.
fn listed_field_names(fields: &Vec<OpField>) -> (r: Vec<String>)
    ensures
        views(r@) == listed_names(fields@),
{
    let mut out: Vec<String> = Vec::new();
    let n = fields.len();
    let mut i: usize = 0;
    while i < n
        invariant
            n == fields@.len(),
            i <= n,
            views(out@) == listed_names(fields@.take(i as int)),
        decreases n - i,
    {
        proof {
            assert(fields@.take(i + 1).drop_last() =~= fields@.take(i as int));
            assert(fields@.take(i + 1).last() == fields@[i as int]);
        }
        let f = &fields[i];
        match &f.label {
            Some(l) => {
                out.push(l.clone());
            },
            None => match &f.id {
                Some(d) => {
                    out.push(d.clone());
                },
                None => {},
            },
        }
        i = i + 1;
    }
    assert(fields@.take(n as int) =~= fields@);
    out
}

/// What a 1Password lookup sends: the parsed reference, the item's address
/// and the `Authorization` header.
#[derive(Debug)]
pub struct OpRequest {
    pub reference: OpReference,
    pub url: String,
    pub authorization: String,
}

/// The address and token that the settings choose, when they choose any.
pub open spec fn chosen_auth(
    service_account_token: Option<String>,
    connect_token: Option<String>,
    connect_host: Option<String>,
) -> Option<(Seq<char>, Seq<char>)> {
    if present(service_account_token) {
        Some((service_account_base_url(), service_account_token->0@))
    } else if present(connect_token) && present(connect_host) {
        Some((connect_host->0@, connect_token->0@))
    } else {
        None
    }
}

impl OpResolver {
    /// Everything a lookup decides before it talks to the network, in the
    /// order the resolver takes it: the reference is parsed first, so a bad
    /// reference is refused whatever the credentials are; then the
    /// credentials are chosen; then the request's address and header are
    /// built. Only a request returned here is sent.
    pub fn prepare_request(
        reference: &str,
        service_account_token: Option<String>,
        connect_token: Option<String>,
        connect_host: Option<String>,
    ) -> (r: Result<OpRequest, SecretError>)
        ensures
            !op_accepts(reference@) ==> (r matches Err(e) && op_parse_meets(reference@, Err(e))),
            op_accepts(reference@) && chosen_auth(service_account_token, connect_token, connect_host) is None
                ==> (r matches Err(SecretError::OpCredentialsMissing)),
            op_accepts(reference@) ==> (chosen_auth(service_account_token, connect_token, connect_host) matches Some(
                (base, token),
            ) ==> (r matches Ok(req) && op_parse_meets(reference@, Ok(req.reference)) && req.url@
                == item_url_text(base, op_segments(reference@)[0], op_segments(reference@)[1])
                && req.authorization@ == "Bearer "@ + token)),
    {
        let parsed = match OpReference::parse(reference) {
            Ok(p) => p,
            Err(e) => {
                return Err(e);
            },
        };
        let auth = match OpAuth::from_values(service_account_token, connect_token, connect_host) {
            Ok(a) => a,
            Err(e) => {
                return Err(e);
            },
        };
        let url = OpResolver::item_url(&auth, &parsed);
        let authorization = OpResolver::authorization(&auth);
        Ok(OpRequest { reference: parsed, url, authorization })
    }
}

/// Removes every trailing `/`.
fn trim_end_slashes(s: &str) -> (r: &str)
    ensures
        r@ == trim_end(s@, '/'),
{
    let mut end = s.unicode_len();
    while end > 0 && s.get_char(end - 1) == '/'
        invariant
            end <= s@.len(),
            trim_end(s@, '/') == trim_end(s@.take(end as int), '/'),
        decreases end,
    {
        proof {
            assert(s@.take(end - 1) =~= s@.take(end as int).drop_last());
        }
        end = end - 1;
    }
    s.substring_char(0, end)
}

impl Default for OpResolver {
    fn default() -> (r: OpResolver)
        ensures
            r == OpResolver,
    {
        OpResolver::new()
    }
}

impl OpAuth {
    /// Chooses how to authenticate from the three settings.
    ///
    /// A non-empty service-account token wins; otherwise both a non-empty
    /// Connect token and a non-empty Connect host are needed.
    pub fn from_values(
        service_account_token: Option<String>,
        connect_token: Option<String>,
        connect_host: Option<String>,
    ) -> (r: Result<OpAuth, SecretError>)
        ensures
            present(service_account_token) ==> (r matches Ok(OpAuth::ServiceAccount { token })
                && Some(token) == service_account_token),
            !present(service_account_token) && present(connect_token) && present(connect_host) ==> (
            r matches Ok(OpAuth::Connect { host, token }) && Some(host) == connect_host && Some(
                token,
            ) == connect_token),
            !present(service_account_token) && !(present(connect_token) && present(connect_host))
                ==> (r matches Err(SecretError::OpCredentialsMissing)),
    {
        if let Some(token) = service_account_token {
            if token.as_str().unicode_len() > 0 {
                return Ok(OpAuth::ServiceAccount { token });
            }
        }
        let token = match connect_token {
            Some(t) => if t.as_str().unicode_len() > 0 {
                Some(t)
            } else {
                None
            },
            None => None,
        };
        let host = match connect_host {
            Some(h) => if h.as_str().unicode_len() > 0 {
                Some(h)
            } else {
                None
            },
            None => None,
        };
        match (token, host) {
            (Some(token), Some(host)) => Ok(OpAuth::Connect { host, token }),
            _ => Err(SecretError::OpCredentialsMissing),
        }
    }

    /// The API address this authentication talks to.
    pub open spec fn base_url_text(&self) -> Seq<char> {
        match self {
            OpAuth::ServiceAccount { .. } => service_account_base_url(),
            OpAuth::Connect { host, .. } => host@,
        }
    }

    /// The bearer token of this authentication.
    pub open spec fn token_text(&self) -> Seq<char> {
        match self {
            OpAuth::ServiceAccount { token } => token@,
            OpAuth::Connect { token, .. } => token@,
        }
    }

    /// The API address: the public events API for a service account, the
    /// configured host for a Connect server.
    pub fn base_url(&self) -> (r: &str)
        ensures
            r@ == self.base_url_text(),
    {
        proof {
            reveal_strlit("https://events.1password.com");
        }
        match self {
            OpAuth::ServiceAccount { .. } => "https://events.1password.com",
            OpAuth::Connect { host, .. } => host.as_str(),
        }
    }

    /// The bearer token.
    pub fn token(&self) -> (r: &str)
        ensures
            r@ == self.token_text(),
    {
        match self {
            OpAuth::ServiceAccount { token } => token.as_str(),
            OpAuth::Connect { token, .. } => token.as_str(),
        }
    }
}

} // verus!
