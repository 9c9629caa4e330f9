//! Secret references: the shared error type and the checks that keep a value
//! safe to place in a URL path.

pub mod error;
pub mod onepassword;
pub mod vault;

use vstd::prelude::*;
use crate::secrets::error::SecretError;
use crate::text::{char_is_control, char_is_whitespace, is_ascii_alphanumeric, is_control, is_whitespace, ascii_alphanumeric};

verus! {

/// Characters that would break or redirect a URL when placed in a path
/// segment: `/`, `?`, `#`, whitespace and control characters.
pub open spec fn is_unsafe_path_char(c: char) -> bool {
    c == '/' || c == '?' || c == '#' || char_is_whitespace(c) || char_is_control(c)
}

/// The first unsafe character of `s` at or after position `i`.
pub open spec fn first_unsafe_from(s: Seq<char>, i: int) -> Option<char>
    decreases s.len() - i,
{
    if i < 0 || i >= s.len() {
        None
    } else if is_unsafe_path_char(s[i]) {
        Some(s[i])
    } else {
        first_unsafe_from(s, i + 1)
    }
}

/// The first unsafe character of `s`, if it has one.
pub open spec fn first_unsafe_char(s: Seq<char>) -> Option<char> {
    first_unsafe_from(s, 0)
}

/// A value that may stand alone in a URL path segment.
pub open spec fn is_valid_path_segment(s: Seq<char>) -> bool {
    s.len() > 0 && first_unsafe_char(s) is None
}

/// `first_unsafe_from` finds nothing exactly when no character from `i` on is unsafe.
pub proof fn lemma_first_unsafe_none(s: Seq<char>, i: int)
    requires
        0 <= i <= s.len(),
    ensures
        first_unsafe_from(s, i) is None <==> (forall|j: int| i <= j < s.len() ==> !is_unsafe_path_char(#[trigger] s[j])),
        first_unsafe_from(s, i) matches Some(c) ==> is_unsafe_path_char(c),
    decreases s.len() - i,
{
    if i < s.len() {
        lemma_first_unsafe_none(s, i + 1);
    }
}

/// What is wrong with a path segment.
pub enum SegmentFault {
    /// The segment is empty.
    Empty,
    /// The segment holds this unsafe character, the first such in it.
    Unsafe(char),
}

/// What is wrong with `s` as a path segment, if anything.
pub open spec fn segment_fault(s: Seq<char>) -> Option<SegmentFault> {
    if s.len() == 0 {
        Some(SegmentFault::Empty)
    } else {
        match first_unsafe_char(s) {
            Some(c) => Some(SegmentFault::Unsafe(c)),
            None => None,
        }
    }
}

/// `e` is the error that reports `fault` for the value named `field_name`.
pub open spec fn reports_fault(e: SecretError, fault: SegmentFault, field_name: Seq<char>) -> bool {
    match fault {
        SegmentFault::Empty => e matches SecretError::EmptySegment { field_name: f } && f@ == field_name,
        SegmentFault::Unsafe(c) => e matches SecretError::InvalidCharacter { field_name: f, ch }
            && f@ == field_name && ch == c,
    }
}

/// Checks that `value` is safe to use in a URL path segment.
///
/// Empty values are refused, and so are values holding `/`, `?`, `#`,
/// whitespace or a control character; the error names the first such
/// character.
pub fn validate_path_segment(value: &str, field_name: &str) -> (r: Result<(), SecretError>)
    ensures
        r is Ok <==> is_valid_path_segment(value@),
        match segment_fault(value@) {
            None => r is Ok,
            Some(fault) => r matches Err(e) && reports_fault(e, fault, field_name@),
        },
{
    let n = value.unicode_len();
    if n == 0 {
        return Err(SecretError::EmptySegment { field_name: String::from_str(field_name) });
    }
    let mut i: usize = 0;
    while i < n
        invariant
            n == value@.len(),
            i <= n,
            first_unsafe_from(value@, 0) == first_unsafe_from(value@, i as int),
        decreases n - i,
    {
        let ch = value.get_char(i);
        if ch == '/' || ch == '?' || ch == '#' || is_whitespace(ch) || is_control(ch) {
            return Err(SecretError::InvalidCharacter { field_name: String::from_str(field_name), ch });
        }
        i = i + 1;
    }
    Ok(())
}

/// Every character is an ASCII letter, an ASCII digit or a hyphen.
pub open spec fn only_alphanumeric_or_hyphen(s: Seq<char>) -> bool {
    forall|i: int| 0 <= i < s.len() ==> is_ascii_alphanumeric(#[trigger] s[i]) || s[i] == '-'
}

/// Two hyphens stand next to each other somewhere in `s`.
pub open spec fn has_double_hyphen(s: Seq<char>) -> bool {
    exists|i: int| 0 <= i && i + 1 < s.len() && #[trigger] s[i] == '-' && s[i + 1] == '-'
}

/// An Azure Key Vault name: 3 to 24 bytes long, only ASCII letters, digits
/// and hyphens, no hyphen first or last, and no two hyphens in a row.
pub open spec fn is_valid_azure_vault_name(name: &str) -> bool {
    let s = name@;
    let n = name.len();
    &&& 3 <= n <= 24
    &&& only_alphanumeric_or_hyphen(s)
    &&& s[0] != '-'
    &&& s[s.len() - 1] != '-'
    &&& !has_double_hyphen(s)
}

/// Validates an Azure Key Vault name.
///
/// Names must be 3-24 characters long (counted in bytes), contain only ASCII
/// letters, digits and hyphens, must not start or end with a hyphen, and must
/// not contain consecutive hyphens. The checks run in that order, and the
/// first that fails gives the error.
pub fn validate_azure_vault_name(name: &str) -> (r: Result<(), SecretError>)
    ensures
        r is Ok <==> is_valid_azure_vault_name(name),
        ({
            let n = name.len();
            &&& (n < 3 || n > 24) ==> (r matches Err(SecretError::AzureNameLength { len })
                && len == n)
            &&& (3 <= n <= 24 && !only_alphanumeric_or_hyphen(name@)) ==> (r matches Err(
                SecretError::AzureNameCharset { name: m },
            ) && m@ == name@)
            &&& (3 <= n <= 24 && only_alphanumeric_or_hyphen(name@) && (name@[0] == '-'
                || name@[name@.len() - 1] == '-')) ==> (r matches Err(
                SecretError::AzureNameHyphenEdge,
            ))
            &&& (3 <= n <= 24 && only_alphanumeric_or_hyphen(name@) && name@[0] != '-'
                && name@[name@.len() - 1] != '-' && has_double_hyphen(name@)) ==> (r matches Err(
                SecretError::AzureNameDoubleHyphen,
            ))
        }),
{
    let len = name.len();
    if len < 3 || len > 24 {
        return Err(SecretError::AzureNameLength { len });
    }
    assert(name@.len() > 0) by {
        if name@.len() == 0 {
            assert(vstd::utf8::encode_utf8(name@).len() == 0);
        }
    }
    let n = name.unicode_len();
    let mut i: usize = 0;
    while i < n
        invariant
            n == name@.len(),
            i <= n,
            3 <= name.len() <= 24,
            forall|j: int| 0 <= j < i ==> is_ascii_alphanumeric(#[trigger] name@[j]) || name@[j] == '-',
        decreases n - i,
    {
        let c = name.get_char(i);
        if !(ascii_alphanumeric(c) || c == '-') {
            assert(!(is_ascii_alphanumeric(name@[i as int]) || name@[i as int] == '-'));
            return Err(SecretError::AzureNameCharset { name: String::from_str(name) });
        }
        i = i + 1;
    }
    if name.get_char(0) == '-' || name.get_char(n - 1) == '-' {
        return Err(SecretError::AzureNameHyphenEdge);
    }
    let mut k: usize = 0;
    while k + 1 < n
        invariant
            n == name@.len(),
            n >= 1,
            k + 1 <= n,
            3 <= name.len() <= 24,
            only_alphanumeric_or_hyphen(name@),
            name@[0] != '-',
            name@[n - 1] != '-',
            forall|j: int| 0 <= j < k ==> !(#[trigger] name@[j] == '-' && name@[j + 1] == '-'),
        decreases n - k,
    {
        if name.get_char(k) == '-' && name.get_char(k + 1) == '-' {
            assert(name@[k as int] == '-' && name@[k + 1] == '-');
            return Err(SecretError::AzureNameDoubleHyphen);
        }
        k = k + 1;
    }
    Ok(())
}


/// Every non-empty value in which no character is `/`, `?`, `#`, whitespace
/// or a control character is a valid path segment, so `validate_path_segment`
/// accepts it. Letters of either case, digits and every other character are
/// allowed.
pub proof fn lemma_plain_values_are_valid_segments(s: Seq<char>)
    requires
        s.len() > 0,
        forall|i: int| 0 <= i < s.len() ==> {
            let c = #[trigger] s[i];
            c != '/' && c != '?' && c != '#' && !char_is_whitespace(c) && !char_is_control(c)
        },
    ensures
        is_valid_path_segment(s),
        segment_fault(s) is None,
{
    assert forall|j: int| 0 <= j < s.len() implies !is_unsafe_path_char(#[trigger] s[j]) by {
        let c = s[j];
        assert(c != '/' && c != '?' && c != '#' && !char_is_whitespace(c) && !char_is_control(c));
    }
    lemma_first_unsafe_none(s, 0);
}

/// A path segment is refused exactly for a character that is `/`, `?`, `#`,
/// whitespace or a control character: the fault reported is such a
/// character of the value, and every character before it is none of these.
pub proof fn lemma_segment_fault_is_an_unsafe_character(s: Seq<char>)
    ensures
        segment_fault(s) matches Some(SegmentFault::Unsafe(c)) ==> {
            &&& (c == '/' || c == '?' || c == '#' || char_is_whitespace(c) || char_is_control(c))
            &&& exists|k: int| 0 <= k < s.len() && s[k] == c
        },
{
    lemma_first_unsafe_found(s, 0);
}

/// Where `first_unsafe_from` finds a character, it is one of `s` from `i` on.
proof fn lemma_first_unsafe_found(s: Seq<char>, i: int)
    requires
        0 <= i,
    ensures
        first_unsafe_from(s, i) matches Some(c) ==> is_unsafe_path_char(c) && exists|k: int| i <= k < s.len() && s[k] == c,
    decreases s.len() - i,
{
    if i < s.len() && !is_unsafe_path_char(s[i]) {
        lemma_first_unsafe_found(s, i + 1);
    }
}

/// Every name of 3 to 24 ASCII letters (of either case) and digits, without
/// hyphens, is a valid Azure Key Vault name, so `validate_azure_vault_name`
/// accepts it.
pub proof fn lemma_letters_and_digits_are_valid_azure_names(name: &str)
    requires
        3 <= name@.len() <= 24,
        forall|i: int| 0 <= i < name@.len() ==> {
            let c = #[trigger] name@[i];
            ('a' <= c <= 'z') || ('A' <= c <= 'Z') || ('0' <= c <= '9')
        },
    ensures
        is_valid_azure_vault_name(name),
{
    let s = name@;
    assert(vstd::utf8::is_ascii_chars(s)) by {
        assert forall|i: int| 0 <= i < s.len() implies '\0' <= #[trigger] s[i] <= '\u{7f}' by {
            let c = s[i];
            assert(('a' <= c <= 'z') || ('A' <= c <= 'Z') || ('0' <= c <= '9'));
        }
    }
    vstd::utf8::is_ascii_chars_encode_utf8(s);
    assert(name.len() == s.len());
    assert forall|i: int| 0 <= i < s.len() implies is_ascii_alphanumeric(#[trigger] s[i]) || s[i] == '-' by {
        let c = s[i];
        assert(('a' <= c <= 'z') || ('A' <= c <= 'Z') || ('0' <= c <= '9'));
    }
    let c0 = s[0];
    let cl = s[s.len() - 1];
    assert(('a' <= c0 <= 'z') || ('A' <= c0 <= 'Z') || ('0' <= c0 <= '9'));
    assert(('a' <= cl <= 'z') || ('A' <= cl <= 'Z') || ('0' <= cl <= '9'));
    if has_double_hyphen(s) {
        let k = choose|k: int| 0 <= k && k + 1 < s.len() && #[trigger] s[k] == '-' && s[k + 1] == '-';
        let c = s[k];
        assert(('a' <= c <= 'z') || ('A' <= c <= 'Z') || ('0' <= c <= '9'));
    }
}

} // verus!
