//! Cookie-string handling: reading one cookie's value out of a
//! `Cookie:` header, and building a `Set-Cookie` value.
//!
//! The transport itself — request and response headers — belongs to the
//! surrounding application; this module only computes on the strings.

use vstd::prelude::*;

use crate::payload::scan_char;
use crate::text::{white_space, chars_of_str, is_white_space, push_char};
use crate::username::{lemma_trim_left_at, lemma_trim_right_at, trim_spec};
use crate::wire::dec_chars;

verus! {

/// The value of one `name=value` piece of a cookie header, if its
/// trimmed name is `key` and its trimmed value is not empty; a piece
/// without `=` counts as an empty name with an empty value.
pub open spec fn piece_value(piece: Seq<char>, key: Seq<char>) -> Option<Seq<char>> {
    let q = scan_char(piece, 0, '=');
    let name = if q == piece.len() {
        Seq::<char>::empty()
    } else {
        piece.subrange(0, q)
    };
    let value = if q == piece.len() {
        Seq::<char>::empty()
    } else {
        piece.subrange(q + 1, piece.len() as int)
    };
    if trim_spec(name) == key && trim_spec(value).len() > 0 {
        Some(value)
    } else {
        None
    }
}

/// Walks the header once, splitting on `;`; the first piece whose name
/// matches wins. `cur` is the piece being accumulated.
pub open spec fn cookie_scan(cs: Seq<char>, cur: Seq<char>, key: Seq<char>) -> Option<Seq<char>>
    decreases cs.len(),
{
    if cs.len() == 0 {
        piece_value(cur, key)
    } else if cs[0] == ';' {
        match piece_value(cur, key) {
            Some(v) => Some(v),
            None => cookie_scan(cs.drop_first(), Seq::<char>::empty(), key),
        }
    } else {
        cookie_scan(cs.drop_first(), cur.push(cs[0]), key)
    }
}

/// What [`get_cookie_value`] yields for a header and a key.
pub open spec fn cookie_value_spec(cs: Seq<char>, key: Seq<char>) -> Option<Seq<char>> {
    cookie_scan(cs, Seq::<char>::empty(), key)
}

/// The first and last non-whitespace positions of `piece[from..to)`,
/// so that the trimmed text is `piece[r.0..r.1)`.
fn trim_bounds(piece: &Vec<char>, from: usize, to: usize) -> (r: (usize, usize))
    requires
        from <= to <= piece@.len(),
    ensures
        from <= r.0 <= r.1 <= to,
        trim_spec(piece@.subrange(from as int, to as int)) == piece@.subrange(
            r.0 as int,
            r.1 as int,
        ),
{
    let ghost s = piece@.subrange(from as int, to as int);
    let mut start: usize = from;
    loop
        invariant
            from <= start <= to <= piece@.len(),
            s == piece@.subrange(from as int, to as int),
            forall|i: int| from <= i < start ==> is_white_space(piece@[i]),
        ensures
            from <= start <= to,
            forall|i: int| from <= i < start ==> is_white_space(piece@[i]),
            start == to || !is_white_space(piece@[start as int]),
        decreases to - start,
    {
        if start >= to {
            break;
        }
        if !white_space(piece[start]) {
            break;
        }
        start = start + 1;
    }
    let mut end: usize = to;
    loop
        invariant
            start <= end <= to <= piece@.len(),
            s == piece@.subrange(from as int, to as int),
            forall|i: int| end <= i < to ==> is_white_space(piece@[i]),
        ensures
            start <= end <= to,
            forall|i: int| end <= i < to ==> is_white_space(piece@[i]),
            end == start || !is_white_space(piece@[end - 1]),
        decreases end,
    {
        if end <= start {
            break;
        }
        if !white_space(piece[end - 1]) {
            break;
        }
        end = end - 1;
    }
    proof {
        assert(forall|i: int| 0 <= i < s.len() ==> s[i] == piece@[from + i]);
        lemma_trim_left_at(s, start - from);
        let t = s.subrange(start - from, s.len() as int);
        assert(forall|i: int| end - start <= i < t.len() ==> is_white_space(t[i]));
        lemma_trim_right_at(t, end - start);
        assert(t.subrange(0, end - start) =~= piece@.subrange(start as int, end as int));
    }
    (start, end)
}

/// Whether `piece[from..to)` equals `key`.
fn range_eq_str(piece: &Vec<char>, from: usize, to: usize, key: &str) -> (r: bool)
    requires
        from <= to <= piece@.len(),
    ensures
        r == (piece@.subrange(from as int, to as int) == key@),
{
    let n = key.unicode_len();
    if n != to - from {
        proof {
            assert(piece@.subrange(from as int, to as int).len() != key@.len());
        }
        return false;
    }
    let mut j: usize = 0;
    while j < n
        invariant
            n == key@.len(),
            from + n <= to <= piece@.len(),
            to - from == n,
            j <= n,
            forall|x: int| 0 <= x < j ==> piece@[from + x] == key@[x],
        decreases n - j,
    {
        if piece[from + j] != key.get_char(j) {
            proof {
                assert(piece@.subrange(from as int, to as int)[j as int] != key@[j as int]);
            }
            return false;
        }
        j = j + 1;
    }
    proof {
        assert(piece@.subrange(from as int, to as int) =~= key@);
    }
    true
}

/// Executable [`piece_value`] over `piece[from..to)`.
fn eval_piece(piece: &Vec<char>, from: usize, to: usize, key: &str) -> (r: Option<String>)
    requires
        from <= to <= piece@.len(),
    ensures
        match r {
            Some(v) => piece_value(piece@.subrange(from as int, to as int), key@) == Some(v@),
            None => piece_value(piece@.subrange(from as int, to as int), key@) is None,
        },
{
    let ghost s = piece@.subrange(from as int, to as int);
    proof {
        assert(forall|i: int| 0 <= i < s.len() ==> s[i] == piece@[from + i]);
    }
    // find the first '=' inside the piece
    let mut q: usize = from;
    loop
        invariant
            from <= q <= to <= piece@.len(),
            s == piece@.subrange(from as int, to as int),
            forall|i: int| from <= i < q ==> piece@[i] != '=',
        ensures
            from <= q <= to,
            forall|i: int| from <= i < q ==> piece@[i] != '=',
            q == to || piece@[q as int] == '=',
        decreases to - q,
    {
        if q >= to {
            break;
        }
        if piece[q] == '=' {
            break;
        }
        q = q + 1;
    }
    proof {
        crate::payload::lemma_scan_finds(s, 0, q - from, '=');
    }
    if q == to {
        // no '=': the name and value are both empty, and an empty value
        // never matches
        proof {
            assert(trim_spec(Seq::<char>::empty()).len() == 0);
        }
        return None;
    }
    let (ns, ne) = trim_bounds(piece, from, q);
    proof {
        assert(s.subrange(0, q - from) =~= piece@.subrange(from as int, q as int));
    }
    if !range_eq_str(piece, ns, ne, key) {
        return None;
    }
    let (vs, ve) = trim_bounds(piece, q + 1, to);
    proof {
        assert(s.subrange(q - from + 1, s.len() as int) =~= piece@.subrange(q + 1, to as int));
    }
    if vs == ve {
        return None;
    }
    let mut v = String::new();
    let mut i: usize = q + 1;
    while i < to
        invariant
            q + 1 <= i <= to <= piece@.len(),
            v@ == piece@.subrange(q + 1, i as int),
        decreases to - i,
    {
        push_char(&mut v, piece[i]);
        proof {
            assert(piece@.subrange(q + 1, i + 1) =~= piece@.subrange(q + 1, i as int).push(
                piece@[i as int],
            ));
        }
        i = i + 1;
    }
    Some(v)
}

/// The value of the cookie named `key` in a `Cookie:` header: pieces
/// are split on `;`, names are compared after trimming, and a piece
/// whose trimmed value is empty does not count. The value is returned
/// untrimmed, first match wins.
pub fn get_cookie_value(cookies: &str, key: &str) -> (r: Option<String>)
    ensures
        match r {
            Some(v) => cookie_value_spec(cookies@, key@) == Some(v@),
            None => cookie_value_spec(cookies@, key@) is None,
        },
{
    let cs = chars_of_str(cookies);
    proof {
        assert(cs@.skip(0) =~= cs@);
    }
    let mut piece_start: usize = 0;
    let mut i: usize = 0;
    loop
        invariant
            piece_start <= i <= cs@.len(),
            cs@ == cookies@,
            forall|x: int| piece_start <= x < i ==> cs@[x] != ';',
            cookie_value_spec(cookies@, key@) == cookie_scan(
                cs@.skip(piece_start as int),
                Seq::<char>::empty(),
                key@,
            ),
        ensures
            piece_start <= i == cs@.len(),
            forall|x: int| piece_start <= x < i ==> cs@[x] != ';',
            cookie_value_spec(cookies@, key@) == cookie_scan(
                cs@.skip(piece_start as int),
                Seq::<char>::empty(),
                key@,
            ),
        decreases cs@.len() - i,
    {
        if i == cs.len() {
            break;
        }
        if cs[i] == ';' {
            proof {
                lemma_scan_piece(cs@, piece_start as int, i as int, key@);
            }
            match eval_piece(&cs, piece_start, i, key) {
                Some(v) => {
                    return Some(v);
                },
                None => {
                    proof {
                        assert(cs@.skip(piece_start as int).drop_first() =~= cs@.skip(
                            piece_start + 1,
                        ));
                    }
                },
            }
            piece_start = i + 1;
        }
        i = i + 1;
    }
    proof {
        lemma_scan_piece_end(cs@, piece_start as int, key@);
    }
    eval_piece(&cs, piece_start, cs.len(), key)
}

/// Scanning from a piece start up to a `;` at `stop` first evaluates
/// the piece between them.
proof fn lemma_scan_piece(cs: Seq<char>, start: int, stop: int, key: Seq<char>)
    requires
        0 <= start <= stop < cs.len(),
        cs[stop] == ';',
        forall|x: int| start <= x < stop ==> cs[x] != ';',
    ensures
        cookie_scan(cs.skip(start), Seq::<char>::empty(), key) == (match piece_value(
            cs.subrange(start, stop),
            key,
        ) {
            Some(v) => Some(v),
            None => cookie_scan(cs.skip(stop + 1), Seq::<char>::empty(), key),
        }),
{
    lemma_scan_piece_general(cs, start, stop, key, Seq::<char>::empty());
}

proof fn lemma_scan_piece_general(
    cs: Seq<char>,
    start: int,
    stop: int,
    key: Seq<char>,
    cur: Seq<char>,
)
    requires
        0 <= start <= stop < cs.len(),
        cs[stop] == ';',
        forall|x: int| start <= x < stop ==> cs[x] != ';',
    ensures
        cookie_scan(cs.skip(start), cur, key) == (match piece_value(
            cur + cs.subrange(start, stop),
            key,
        ) {
            Some(v) => Some(v),
            None => cookie_scan(cs.skip(stop + 1), Seq::<char>::empty(), key),
        }),
    decreases stop - start,
{
    assert(cs.skip(start)[0] == cs[start]);
    assert(cs.skip(start).drop_first() =~= cs.skip(start + 1));
    if start == stop {
        assert(cur + cs.subrange(start, stop) =~= cur);
    } else {
        lemma_scan_piece_general(cs, start + 1, stop, key, cur.push(cs[start]));
        assert(cur.push(cs[start]) + cs.subrange(start + 1, stop) =~= cur + cs.subrange(
            start,
            stop,
        ));
    }
}

/// Scanning a final piece (no `;` after it) evaluates just that piece.
proof fn lemma_scan_piece_end(cs: Seq<char>, start: int, key: Seq<char>)
    requires
        0 <= start <= cs.len(),
        forall|x: int| start <= x < cs.len() ==> cs[x] != ';',
    ensures
        cookie_scan(cs.skip(start), Seq::<char>::empty(), key) == piece_value(
            cs.subrange(start, cs.len() as int),
            key,
        ),
{
    lemma_scan_piece_end_general(cs, start, key, Seq::<char>::empty());
}

proof fn lemma_scan_piece_end_general(cs: Seq<char>, start: int, key: Seq<char>, cur: Seq<char>)
    requires
        0 <= start <= cs.len(),
        forall|x: int| start <= x < cs.len() ==> cs[x] != ';',
    ensures
        cookie_scan(cs.skip(start), cur, key) == piece_value(
            cur + cs.subrange(start, cs.len() as int),
            key,
        ),
    decreases cs.len() - start,
{
    if start == cs.len() {
        assert(cs.skip(start).len() == 0);
        assert(cur + cs.subrange(start, cs.len() as int) =~= cur);
    } else {
        assert(cs.skip(start)[0] == cs[start]);
        assert(cs.skip(start).drop_first() =~= cs.skip(start + 1));
        lemma_scan_piece_end_general(cs, start + 1, key, cur.push(cs[start]));
        assert(cur.push(cs[start]) + cs.subrange(start + 1, cs.len() as int) =~= cur
            + cs.subrange(start, cs.len() as int));
    }
}

/// The `Set-Cookie` value for a cookie: name, value, and the fixed
/// attributes — path, optional `Secure`, `SameSite=Lax`, `HttpOnly`,
/// and the max age in seconds.
pub open spec fn set_cookie_chars(key: Seq<char>, value: Seq<char>, age: nat, secure: bool) -> Seq<
    char,
> {
    key + "="@ + value + "; Path=/; "@ + (if secure {
        "Secure;"@
    } else {
        ""@
    }) + " SameSite=Lax; HttpOnly; Max-Age="@ + dec_chars(age)
}

/// Appends the decimal form of `n`.
fn append_dec(out: &mut String, n: u64)
    ensures
        final(out)@ == old(out)@ + dec_chars(n as nat),
    decreases n,
{
    if n < 10 {
        push_char(out, (48 + n as u8) as char);
        proof {
            assert(final(out)@ =~= old(out)@ + dec_chars(n as nat));
        }
    } else {
        append_dec(out, n / 10);
        push_char(out, (48 + (n % 10) as u8) as char);
        proof {
            assert(final(out)@ =~= old(out)@ + dec_chars(n as nat));
        }
    }
}

/// Builds the `Set-Cookie` header value for `key=value` with the
/// session cookie's fixed attributes.
pub fn build_set_cookie(key: &str, value: &str, age: u64, secure: bool) -> (r: String)
    ensures
        r@ == set_cookie_chars(key@, value@, age as nat, secure),
{
    let mut out = String::new();
    out.append(key);
    out.append("=");
    out.append(value);
    out.append("; Path=/; ");
    if secure {
        out.append("Secure;");
    }
    out.append(" SameSite=Lax; HttpOnly; Max-Age=");
    append_dec(&mut out, age);
    proof {
        reveal_strlit("");
        assert(out@ =~= set_cookie_chars(key@, value@, age as nat, secure));
    }
    out
}

} // verus!
