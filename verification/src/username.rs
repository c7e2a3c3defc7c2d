//! Username validation and canonicalization.
//!
//! A username is valid when its canonical form is 3 to 20 characters long and
//! every raw character is an ASCII letter, digit, or underscore.  The
//! canonical form maps ASCII upper-case letters to lower case and leaves every
//! other character unchanged, so two usernames differing only in case share
//! one canonical form.

use vstd::prelude::*;

verus! {

/// Lower-case an ASCII upper-case letter; leave any other character as it is.
pub open spec fn lower_char(c: char) -> char {
    if 'A' as u32 <= c as u32 && c as u32 <= 'Z' as u32 {
        (((c as u32) + 32) as u8) as char
    } else {
        c
    }
}

/// The canonical form of a raw username: each character lower-cased.
pub open spec fn canon_of(s: Seq<char>) -> Seq<char> {
    Seq::new(s.len(), |i: int| lower_char(s[i]))
}

/// A string already in canonical form.
pub open spec fn is_canonical(s: Seq<char>) -> bool {
    canon_of(s) == s
}

/// An ASCII letter, digit, or underscore.
pub open spec fn is_username_char(c: char) -> bool {
    ('a' as u32 <= c as u32 && c as u32 <= 'z' as u32)
    || ('A' as u32 <= c as u32 && c as u32 <= 'Z' as u32)
    || ('0' as u32 <= c as u32 && c as u32 <= '9' as u32)
    || c == '_'
}

/// Every character of the raw username is admissible.
pub open spec fn all_username_chars(s: Seq<char>) -> bool {
    forall|i: int| 0 <= i < s.len() ==> is_username_char(#[trigger] s[i])
}

/// The canonical form is 3 to 20 characters long.
pub open spec fn len_ok(s: Seq<char>) -> bool {
    3 <= canon_of(s).len() && canon_of(s).len() <= 20
}

/// A username the registry accepts: admissible characters, canonical length
/// in bounds.
pub open spec fn valid_username(s: Seq<char>) -> bool {
    len_ok(s) && all_username_chars(s)
}

/// Canonicalization is idempotent, keeps the length, and preserves validity;
/// so every stored (canonical) username is itself a valid, canonical one.
pub proof fn lemma_canon_well_formed(s: Seq<char>)
    ensures
        canon_of(s).len() == s.len(),
        canon_of(canon_of(s)) == canon_of(s),
        all_username_chars(s) ==> all_username_chars(canon_of(s)),
        len_ok(s) ==> len_ok(canon_of(s)),
{
    assert forall|i: int| 0 <= i < s.len() implies lower_char(canon_of(s)[i]) == canon_of(s)[i] by {
        assert(canon_of(s)[i] == lower_char(s[i]));
    }
    assert(canon_of(canon_of(s)) =~= canon_of(s));
    if all_username_chars(s) {
        assert forall|i: int| 0 <= i < canon_of(s).len() implies is_username_char(#[trigger] canon_of(s)[i]) by {
            assert(is_username_char(s[i]));
        }
    }
}

/// Two usernames that differ only in ASCII case have one canonical form.
pub proof fn lemma_canonical_case_insensitive(u1: Seq<char>, u2: Seq<char>)
    requires
        u1.len() == u2.len(),
        forall|i: int| 0 <= i < u1.len() ==> lower_char(#[trigger] u1[i]) == lower_char(#[trigger] u2[i]),
    ensures
        canon_of(u1) == canon_of(u2),
{
    assert(canon_of(u1) =~= canon_of(u2));
}

/// Lower-case one character, as `lower_char` describes.
pub fn to_lower(c: char) -> (r: char)
    ensures
        r == lower_char(c),
{
    let u: u32 = c as u32;
    if 65 <= u && u <= 90 {
        let b: u8 = (u + 32) as u8;
        b as char
    } else {
        c
    }
}

/// Whether the canonical length of the raw username is in bounds.
pub fn username_len_ok(username: &str) -> (r: bool)
    ensures
        r == len_ok(username@),
{
    let n = username.unicode_len();
    3 <= n && n <= 20
}

/// Whether every character of the raw username is admissible.
pub fn username_chars_ok(username: &str) -> (r: bool)
    ensures
        r == all_username_chars(username@),
{
    let n = username.unicode_len();
    let mut i: usize = 0;
    while i < n
        invariant
            n == username@.len(),
            i <= n,
            forall|j: int| 0 <= j < i ==> is_username_char(#[trigger] username@[j]),
        decreases n - i,
    {
        let c = username.get_char(i);
        let u: u32 = c as u32;
        let ok = (97 <= u && u <= 122) || (65 <= u && u <= 90) || (48 <= u && u <= 57) || u == 95;
        if !ok {
            return false;
        }
        i = i + 1;
    }
    true
}

/// Build the canonical form of the raw username.
pub fn to_canonical(username: &str) -> (r: String)
    ensures
        r@ == canon_of(username@),
{
    let n = username.unicode_len();
    let mut out = String::new();
    let mut i: usize = 0;
    while i < n
        invariant
            n == username@.len(),
            i <= n,
            out@.len() == i,
            forall|j: int| 0 <= j < i ==> out@[j] == lower_char(#[trigger] username@[j]),
        decreases n - i,
    {
        let c = username.get_char(i);
        let lc = to_lower(c);
        push_char(&mut out, lc);
        i = i + 1;
    }
    proof {
        assert(out@ =~= canon_of(username@));
    }
    out
}

/// Relies on `String::push`: appends the character to the end of the string.
#[verifier::external_body]
fn push_char(s: &mut String, c: char)
    ensures
        final(s)@ == old(s)@.push(c),
{
    s.push(c);
}

} // verus!
