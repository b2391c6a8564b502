//! Username policy: normalization and validation.
//!
//! Registration funnels every requested username through [`normalize_username`]
//! before comparing it with existing accounts, so that names differing only
//! in case, surrounding whitespace, or visually confusable characters
//! (`-` vs `_`, `1` vs `l`) collide instead of coexisting.
//! [`check_username_validity`] enforces the shape rules on the raw name.

use vstd::prelude::*;

use crate::errors::UsernameValidationError;
use crate::text::{ascii_alnum, white_space, is_ascii_alnum, is_white_space, push_char};

verus! {

/// One character of the normal form: lowercase ASCII letters, `-`
/// collapsed into `_`, and the digit `1` folded into the letter `l`.
pub open spec fn fold_char(c: char) -> char {
    if 'A' <= c && c <= 'Z' {
        (((c as u8) + 32) as char)
    } else if c == '-' {
        '_'
    } else if c == '1' {
        'l'
    } else {
        c
    }
}

/// The input with leading whitespace (the Unicode `White_Space` set)
/// removed.
pub open spec fn trim_left(s: Seq<char>) -> Seq<char>
    decreases s.len(),
{
    if s.len() > 0 && is_white_space(s[0]) {
        trim_left(s.subrange(1, s.len() as int))
    } else {
        s
    }
}

/// The input with trailing whitespace removed.
pub open spec fn trim_right(s: Seq<char>) -> Seq<char>
    decreases s.len(),
{
    if s.len() > 0 && is_white_space(s[s.len() - 1]) {
        trim_right(s.subrange(0, s.len() - 1))
    } else {
        s
    }
}

/// The input with surrounding whitespace removed, as `str::trim`
/// would.
pub open spec fn trim_spec(s: Seq<char>) -> Seq<char> {
    trim_right(trim_left(s))
}

/// The normal form of a username: trimmed, then folded character by
/// character.
pub open spec fn normalize_spec(s: Seq<char>) -> Seq<char> {
    trim_spec(s).map_values(|c: char| fold_char(c))
}

pub proof fn lemma_trim_left_at(s: Seq<char>, k: int)
    requires
        0 <= k <= s.len(),
        forall|i: int| 0 <= i < k ==> is_white_space(s[i]),
        k == s.len() || !is_white_space(s[k]),
    ensures
        trim_left(s) == s.subrange(k, s.len() as int),
    decreases k,
{
    if k == 0 {
        assert(s.subrange(0, s.len() as int) =~= s);
    } else {
        assert(is_white_space(s[0]));
        let t = s.subrange(1, s.len() as int);
        assert(forall|i: int| 0 <= i < k - 1 ==> is_white_space(t[i]));
        lemma_trim_left_at(t, k - 1);
        assert(t.subrange(k - 1, t.len() as int) =~= s.subrange(k, s.len() as int));
    }
}

pub proof fn lemma_trim_right_at(s: Seq<char>, k: int)
    requires
        0 <= k <= s.len(),
        forall|i: int| k <= i < s.len() ==> is_white_space(s[i]),
        k == 0 || !is_white_space(s[k - 1]),
    ensures
        trim_right(s) == s.subrange(0, k),
    decreases s.len() - k,
{
    if k == s.len() {
        if s.len() > 0 && is_white_space(s[s.len() - 1]) {
            assert(!is_white_space(s[k - 1]));
            assert(false);
        }
        assert(s.subrange(0, s.len() as int) =~= s);
    } else {
        assert(is_white_space(s[s.len() - 1]));
        let t = s.subrange(0, s.len() - 1);
        assert(forall|i: int| k <= i < t.len() ==> is_white_space(t[i]));
        lemma_trim_right_at(t, k);
        assert(t.subrange(0, k) =~= s.subrange(0, k));
    }
}

proof fn lemma_trim_left_first(s: Seq<char>)
    ensures
        trim_left(s).len() > 0 ==> !is_white_space(trim_left(s)[0]),
    decreases s.len(),
{
    if s.len() > 0 && is_white_space(s[0]) {
        lemma_trim_left_first(s.subrange(1, s.len() as int));
    }
}

proof fn lemma_trim_right_last(s: Seq<char>)
    ensures
        trim_right(s).len() > 0 ==> !is_white_space(trim_right(s)[trim_right(s).len() - 1]),
    decreases s.len(),
{
    if s.len() > 0 && is_white_space(s[s.len() - 1]) {
        lemma_trim_right_last(s.subrange(0, s.len() - 1));
    }
}

proof fn lemma_trim_right_keeps_first(s: Seq<char>)
    ensures
        trim_right(s).len() > 0 ==> trim_right(s)[0] == s[0],
    decreases s.len(),
{
    if s.len() > 0 && is_white_space(s[s.len() - 1]) {
        lemma_trim_right_keeps_first(s.subrange(0, s.len() - 1));
    }
}

/// Executable [`fold_char`].
fn fold_char_exec(c: char) -> (r: char)
    ensures
        r == fold_char(c),
{
    if 'A' <= c && c <= 'Z' {
        ((c as u8) + 32) as char
    } else if c == '-' {
        '_'
    } else if c == '1' {
        'l'
    } else {
        c
    }
}

/// The normal form used for collision checks: surrounding whitespace
/// trimmed, ASCII letters lowercased, `-` collapsed into `_`, `1`
/// folded into `l`.
pub fn normalize_username(username: &str) -> (r: String)
    ensures
        r@ == normalize_spec(username@),
{
    let ghost s = username@;
    let n = username.unicode_len();
    let mut start: usize = 0;
    loop
        invariant
            n == s.len(),
            s == username@,
            0 <= start <= n,
            forall|i: int| 0 <= i < start ==> is_white_space(s[i]),
        ensures
            0 <= start <= n,
            forall|i: int| 0 <= i < start ==> is_white_space(s[i]),
            start == n || !is_white_space(s[start as int]),
        decreases n - start,
    {
        if start >= n {
            break;
        }
        let c = username.get_char(start);
        if !white_space(c) {
            break;
        }
        start = start + 1;
    }
    let mut end: usize = n;
    loop
        invariant
            n == s.len(),
            s == username@,
            start <= end <= n,
            forall|i: int| end <= i < n ==> is_white_space(s[i]),
        ensures
            start <= end <= n,
            forall|i: int| end <= i < n ==> is_white_space(s[i]),
            end == start || !is_white_space(s[end - 1]),
        decreases end,
    {
        if end <= start {
            break;
        }
        let c = username.get_char(end - 1);
        if !white_space(c) {
            break;
        }
        end = end - 1;
    }
    proof {
        lemma_trim_left_at(s, start as int);
        let t = s.subrange(start as int, s.len() as int);
        assert(forall|i: int| end - start <= i < t.len() ==> is_white_space(t[i]));
        lemma_trim_right_at(t, end - start);
        assert(t.subrange(0, end - start) =~= s.subrange(start as int, end as int));
        assert(trim_spec(s) == s.subrange(start as int, end as int));
    }
    let mut out = String::new();
    let mut i: usize = start;
    while i < end
        invariant
            n == s.len(),
            s == username@,
            start <= i <= end <= n,
            trim_spec(s) == s.subrange(start as int, end as int),
            out@ == s.subrange(start as int, i as int).map_values(|c: char| fold_char(c)),
        decreases end - i,
    {
        let c = username.get_char(i);
        let f = fold_char_exec(c);
        push_char(&mut out, f);
        proof {
            assert(s.subrange(start as int, i + 1) =~= s.subrange(start as int, i as int).push(
                s[i as int],
            ));
            assert(s.subrange(start as int, i + 1).map_values(|c: char| fold_char(c)) =~= s
                .subrange(start as int, i as int)
                .map_values(|c: char| fold_char(c))
                .push(fold_char(s[i as int])));
        }
        i = i + 1;
    }
    out
}

/// Law: normalization is idempotent; normalizing an already normalized
/// name changes nothing.
pub proof fn lemma_normalize_idempotent(s: Seq<char>)
    ensures
        normalize_spec(normalize_spec(s)) == normalize_spec(s),
{
    let t = trim_spec(s);
    let m = t.map_values(|c: char| fold_char(c));
    lemma_trim_left_first(s);
    lemma_trim_right_last(trim_left(s));
    lemma_trim_right_keeps_first(trim_left(s));
    // the ends of the trimmed input are not whitespace, and folding never
    // produces whitespace, so the normal form needs no further trimming
    assert(forall|c: char| !is_white_space(#[trigger] fold_char(c)) || is_white_space(c));
    if m.len() > 0 {
        assert(m[0] == fold_char(t[0]));
        assert(!is_white_space(t[0]));
        assert(m[m.len() - 1] == fold_char(t[t.len() - 1]));
        assert(!is_white_space(t[t.len() - 1]));
    }
    assert(trim_left(m) == m);
    assert(trim_right(m) == m);
    assert(trim_spec(m) == m);
    // folding is idempotent character by character
    assert(forall|c: char| #[trigger] fold_char(fold_char(c)) == fold_char(c));
    assert(m.map_values(|c: char| fold_char(c)) =~= m);
}

/// Names whose normal form may not be registered: reserved or
/// system-like identities.
pub open spec fn is_banned(s: Seq<char>) -> bool {
    ||| s == "admin"@
    ||| s == "administrator"@
    ||| s == "root"@
    ||| s == "superuser"@
    ||| s == "test"@
    ||| s == "guest"@
    ||| s == "anon"@
    ||| s == "anonymous"@
    ||| s == "support"@
    ||| s == "info"@
    ||| s == "contact"@
    ||| s == "webmaster"@
    ||| s == "sysadmin"@
    ||| s == "system"@
    ||| s == "service"@
    ||| s == "starhaven"@
    ||| s == "star_haven"@
}

/// A character allowed anywhere in a username.
pub open spec fn is_username_char(c: char) -> bool {
    is_ascii_alnum(c) || c == '_' || c == '-'
}

/// What [`check_username_validity`] returns, rule by rule; the first
/// failing rule wins. The length rules count bytes of the UTF-8 form;
/// the character rules look at characters.
pub open spec fn validity_spec(s: Seq<char>) -> Result<(), UsernameValidationError> {
    if is_banned(normalize_spec(s)) {
        Err(UsernameValidationError::Banned)
    } else if vstd::utf8::encode_utf8(s).len() < 4 {
        Err(UsernameValidationError::TooShort)
    } else if vstd::utf8::encode_utf8(s).len() > 20 {
        Err(UsernameValidationError::TooLong)
    } else if !is_ascii_alnum(s[0]) || !is_ascii_alnum(s[s.len() - 1]) {
        Err(UsernameValidationError::InvalidStartOrEnd)
    } else if exists|i: int| 0 <= i < s.len() && !is_username_char(s[i]) {
        Err(UsernameValidationError::InvalidCharacters)
    } else {
        Ok(())
    }
}

/// Accepts a username or reports the first policy rule it breaks:
/// reserved name, length bounds, edge characters, then character set.
pub fn check_username_validity(username: &str) -> (r: Result<(), UsernameValidationError>)
    ensures
        r == validity_spec(username@),
{
    let normalized = normalize_username(username);
    let banned = normalized == "admin".to_owned() || normalized == "administrator".to_owned()
        || normalized == "root".to_owned() || normalized == "superuser".to_owned() || normalized
        == "test".to_owned() || normalized == "guest".to_owned() || normalized
        == "anon".to_owned() || normalized == "anonymous".to_owned() || normalized
        == "support".to_owned() || normalized == "info".to_owned() || normalized
        == "contact".to_owned() || normalized == "webmaster".to_owned() || normalized
        == "sysadmin".to_owned() || normalized == "system".to_owned() || normalized
        == "service".to_owned() || normalized == "starhaven".to_owned() || normalized
        == "star_haven".to_owned();
    if banned {
        return Err(UsernameValidationError::Banned);
    }
    let b = username.as_bytes().len();
    if b < 4 {
        return Err(UsernameValidationError::TooShort);
    }
    if b > 20 {
        return Err(UsernameValidationError::TooLong);
    }
    proof {
        // four bytes of UTF-8 encode at least one character
        if username@.len() == 0 {
            assert(vstd::utf8::encode_utf8(username@) =~= Seq::<u8>::empty());
        }
    }
    let n = username.unicode_len();
    if !ascii_alnum(username.get_char(0)) || !ascii_alnum(username.get_char(n - 1)) {
        return Err(UsernameValidationError::InvalidStartOrEnd);
    }
    let mut i: usize = 0;
    while i < n
        invariant
            n == username@.len(),
            0 <= i <= n,
            forall|j: int| 0 <= j < i ==> is_username_char(username@[j]),
            !is_banned(normalize_spec(username@)),
            4 <= vstd::utf8::encode_utf8(username@).len() <= 20,
            n >= 1,
            is_ascii_alnum(username@[0]),
            is_ascii_alnum(username@[n - 1]),
        decreases n - i,
    {
        let c = username.get_char(i);
        if !(ascii_alnum(c) || c == '_' || c == '-') {
            proof {
                assert(0 <= i < username@.len() && !is_username_char(username@[i as int]));
            }
            return Err(UsernameValidationError::InvalidCharacters);
        }
        i = i + 1;
    }
    Ok(())
}

} // verus!
