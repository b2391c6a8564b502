//! The claim payload: a fixed-shape JSON object, printed and parsed
//! exactly.
//!
//! The printer emits one canonical form — fields in a fixed order, no
//! whitespace — and the parser accepts exactly that shape. Identifier
//! lists are split on commas and unquoted; identifiers read off the wire
//! are mapped to the closed service and scope enumerations, unknown ones
//! kept raw.

use vstd::prelude::*;

use crate::claims::{
    all_ident, scope_from_name, scope_name, scope_of_name, service_from_name, service_name,
    service_of_name, Claims, ClaimsView, Scope, Service,
};
use crate::text::push_char;
use crate::wire::{dec_chars, is_ident_char, parse_dec, parse_dec_u128, push_dec_u128};

verus! {

// ---------------------------------------------------------------------
// printing
// ---------------------------------------------------------------------
/// An identifier in its wire quotes.
pub open spec fn quoted(n: Seq<char>) -> Seq<char> {
    seq!['"'] + n + seq!['"']
}

/// A comma-separated list of quoted identifiers.
pub open spec fn name_list(names: Seq<Seq<char>>) -> Seq<char>
    decreases names.len(),
{
    if names.len() == 0 {
        Seq::empty()
    } else if names.len() == 1 {
        quoted(names[0])
    } else {
        name_list(names.drop_last()) + seq![','] + quoted(names.last())
    }
}

/// The canonical payload of a claim set.
pub open spec fn payload_chars(c: ClaimsView) -> Seq<char> {
    "{\"sub\":"@ + dec_chars(c.sub as nat) + ",\"exp\":"@ + dec_chars(c.exp as nat) + ",\"iat\":"@
        + dec_chars(c.iat as nat) + ",\"aud\":["@ + name_list(
        c.aud.map_values(|v| service_name(v)),
    ) + "],\"iss\":\""@ + service_name(c.iss) + "\",\"scopes\":["@ + name_list(
        c.scopes.map_values(|v| scope_name(v)),
    ) + "]}"@
}

/// Appends every character of `lit`.
pub fn append_lit(out: &mut Vec<char>, lit: &str)
    ensures
        final(out)@ == old(out)@ + lit@,
{
    let n = lit.unicode_len();
    let mut i: usize = 0;
    while i < n
        invariant
            n == lit@.len(),
            i <= n,
            out@ == old(out)@ + lit@.subrange(0, i as int),
        decreases n - i,
    {
        out.push(lit.get_char(i));
        proof {
            assert(lit@.subrange(0, i + 1) =~= lit@.subrange(0, i as int).push(lit@[i as int]));
            assert(out@ =~= old(out)@ + lit@.subrange(0, i + 1));
        }
        i = i + 1;
    }
    proof {
        assert(lit@.subrange(0, n as int) =~= lit@);
    }
}

proof fn lemma_name_list_snoc(names: Seq<Seq<char>>, k: int)
    requires
        0 <= k < names.len(),
    ensures
        name_list(names.subrange(0, k + 1)) == name_list(names.subrange(0, k)) + (
        if k == 0 {
            Seq::<char>::empty()
        } else {
            seq![',']
        }) + quoted(names[k]),
{
    let pre = names.subrange(0, k + 1);
    assert(pre.drop_last() =~= names.subrange(0, k));
    assert(pre.last() == names[k]);
    if k == 0 {
        assert(name_list(pre) =~= name_list(names.subrange(0, 0)) + Seq::<char>::empty() + quoted(
            names[0],
        )) by {
            assert(pre.len() == 1);
            assert(pre[0] == names[0]);
            assert(name_list(names.subrange(0, 0)) == Seq::<char>::empty());
        }
    }
}

/// Appends the quoted, comma-separated service identifiers.
fn append_service_names(out: &mut Vec<char>, svcs: &Vec<Service>)
    ensures
        final(out)@ == old(out)@ + name_list(svcs.deep_view().map_values(|v| service_name(v))),
{
    let ghost names = svcs.deep_view().map_values(|v| service_name(v));
    let mut k: usize = 0;
    while k < svcs.len()
        invariant
            names == svcs.deep_view().map_values(|v| service_name(v)),
            names.len() == svcs@.len(),
            k <= svcs@.len(),
            out@ == old(out)@ + name_list(names.subrange(0, k as int)),
        decreases svcs@.len() - k,
    {
        if k > 0 {
            out.push(',');
        }
        out.push('"');
        match &svcs[k] {
            Service::StarHavenPlatform => append_lit(out, "star_haven_platform"),
            Service::StarHavenSccache => append_lit(out, "star_haven_sccache"),
            Service::Unknown(raw) => append_lit(out, raw.as_str()),
        }
        out.push('"');
        proof {
            assert(names[k as int] == service_name(svcs.deep_view()[k as int]));
            lemma_name_list_snoc(names, k as int);
            assert(out@ =~= old(out)@ + name_list(names.subrange(0, k + 1)));
        }
        k = k + 1;
    }
    proof {
        assert(names.subrange(0, names.len() as int) =~= names);
    }
}

/// Appends the quoted, comma-separated scope identifiers.
fn append_scope_names(out: &mut Vec<char>, scopes: &Vec<Scope>)
    ensures
        final(out)@ == old(out)@ + name_list(scopes.deep_view().map_values(|v| scope_name(v))),
{
    let ghost names = scopes.deep_view().map_values(|v| scope_name(v));
    let mut k: usize = 0;
    while k < scopes.len()
        invariant
            names == scopes.deep_view().map_values(|v| scope_name(v)),
            names.len() == scopes@.len(),
            k <= scopes@.len(),
            out@ == old(out)@ + name_list(names.subrange(0, k as int)),
        decreases scopes@.len() - k,
    {
        if k > 0 {
            out.push(',');
        }
        out.push('"');
        match &scopes[k] {
            Scope::CreateMod => append_lit(out, "create_mod"),
            Scope::PublishMod => append_lit(out, "publish_mod"),
            Scope::AdminAuthorAllMods => append_lit(out, "admin_author_all_mods"),
            Scope::Unknown(raw) => append_lit(out, raw.as_str()),
        }
        out.push('"');
        proof {
            assert(names[k as int] == scope_name(scopes.deep_view()[k as int]));
            lemma_name_list_snoc(names, k as int);
            assert(out@ =~= old(out)@ + name_list(names.subrange(0, k + 1)));
        }
        k = k + 1;
    }
    proof {
        assert(names.subrange(0, names.len() as int) =~= names);
    }
}

/// Prints the canonical payload of a claim set.
pub fn payload_of_claims(c: &Claims) -> (r: Vec<char>)
    ensures
        r@ == payload_chars(c@),
{
    let mut out: Vec<char> = Vec::new();
    append_lit(&mut out, "{\"sub\":");
    push_dec_u128(&mut out, c.sub);
    append_lit(&mut out, ",\"exp\":");
    push_dec_u128(&mut out, c.exp as u128);
    append_lit(&mut out, ",\"iat\":");
    push_dec_u128(&mut out, c.iat as u128);
    append_lit(&mut out, ",\"aud\":[");
    append_service_names(&mut out, &c.aud);
    append_lit(&mut out, "],\"iss\":\"");
    match &c.iss {
        Service::StarHavenPlatform => append_lit(&mut out, "star_haven_platform"),
        Service::StarHavenSccache => append_lit(&mut out, "star_haven_sccache"),
        Service::Unknown(raw) => append_lit(&mut out, raw.as_str()),
    }
    append_lit(&mut out, "\",\"scopes\":[");
    append_scope_names(&mut out, &c.scopes);
    append_lit(&mut out, "]}");
    proof {
        assert(out@ =~= payload_chars(c@));
    }
    out
}

// ---------------------------------------------------------------------
// parsing
// ---------------------------------------------------------------------
/// Position after `lit` if it stands at `i`.
pub open spec fn expect(p: Seq<char>, i: int, lit: Seq<char>) -> Option<int> {
    if 0 <= i && i + lit.len() <= p.len() && p.subrange(i, i + lit.len()) == lit {
        Some(i + lit.len())
    } else {
        None
    }
}

/// The position of the first occurrence of `t` at or after `i`, or the
/// end.
pub open spec fn scan_char(p: Seq<char>, i: int, t: char) -> int
    decreases p.len() - i,
    when 0 <= i <= p.len()
{
    if i == p.len() {
        i
    } else if p[i] == t {
        i
    } else {
        scan_char(p, i + 1, t)
    }
}

pub proof fn lemma_scan_props(p: Seq<char>, i: int, t: char)
    requires
        0 <= i <= p.len(),
    ensures
        i <= scan_char(p, i, t) <= p.len(),
        scan_char(p, i, t) < p.len() ==> p[scan_char(p, i, t)] == t,
        forall|j: int| i <= j < scan_char(p, i, t) ==> p[j] != t,
    decreases p.len() - i,
{
    if i < p.len() && p[i] != t {
        lemma_scan_props(p, i + 1, t);
    }
}

/// Splits a region on commas, one character at a time; `cur` is the
/// piece being accumulated and `acc` the pieces already cut.
pub open spec fn split_commas(region: Seq<char>, cur: Seq<char>, acc: Seq<Seq<char>>) -> Seq<
    Seq<char>,
>
    decreases region.len(),
{
    if region.len() == 0 {
        acc.push(cur)
    } else if region[0] == ',' {
        split_commas(region.drop_first(), Seq::empty(), acc.push(cur))
    } else {
        split_commas(region.drop_first(), cur.push(region[0]), acc)
    }
}

/// The identifier inside one quoted list item.
pub open spec fn unquote(item: Seq<char>) -> Option<Seq<char>> {
    if item.len() >= 2 && item[0] == '"' && item[item.len() - 1] == '"' && all_ident(
        item.subrange(1, item.len() - 1),
    ) {
        Some(item.subrange(1, item.len() - 1))
    } else {
        None
    }
}

pub open spec fn unquote_all(items: Seq<Seq<char>>) -> Option<Seq<Seq<char>>>
    decreases items.len(),
{
    if items.len() == 0 {
        Some(Seq::empty())
    } else {
        match unquote(items[0]) {
            None => None,
            Some(n) => match unquote_all(items.drop_first()) {
                None => None,
                Some(ns) => Some(seq![n] + ns),
            },
        }
    }
}

/// The identifiers of a whole bracketed list region (the brackets
/// themselves excluded).
pub open spec fn parse_name_region(region: Seq<char>) -> Option<Seq<Seq<char>>> {
    if region.len() == 0 {
        Some(Seq::empty())
    } else {
        unquote_all(split_commas(region, Seq::empty(), Seq::empty()))
    }
}

/// The claim set a payload spells, if it has exactly the canonical
/// shape.
pub open spec fn parse_payload(p: Seq<char>) -> Option<ClaimsView> {
    match expect(p, 0, "{\"sub\":"@) {
        None => None,
        Some(i1) => match parse_dec(p, i1, 0, u128::MAX as int, false) {
            None => None,
            Some((sub, i2)) => match expect(p, i2, ",\"exp\":"@) {
                None => None,
                Some(i3) => match parse_dec(p, i3, 0, u64::MAX as int, false) {
                    None => None,
                    Some((exp, i4)) => match expect(p, i4, ",\"iat\":"@) {
                        None => None,
                        Some(i5) => match parse_dec(p, i5, 0, u64::MAX as int, false) {
                            None => None,
                            Some((iat, i6)) => parse_payload_tail(p, i6, sub, exp, iat),
                        },
                    },
                },
            },
        },
    }
}

/// The audience, issuer and scope fields, from position `i` on.
pub open spec fn parse_payload_tail(p: Seq<char>, i: int, sub: int, exp: int, iat: int) -> Option<
    ClaimsView,
> {
    match expect(p, i, ",\"aud\":["@) {
        None => None,
        Some(i7) => {
            let j = scan_char(p, i7, ']');
            match parse_name_region(p.subrange(i7, j)) {
                None => None,
                Some(aud_names) => match expect(p, j, "],\"iss\":\""@) {
                    None => None,
                    Some(i8) => {
                        let k = scan_char(p, i8, '"');
                        let iss_name = p.subrange(i8, k);
                        if !all_ident(iss_name) {
                            None
                        } else {
                            match expect(p, k, "\",\"scopes\":["@) {
                                None => None,
                                Some(i9) => {
                                    let m = scan_char(p, i9, ']');
                                    match parse_name_region(p.subrange(i9, m)) {
                                        None => None,
                                        Some(scope_names) => match expect(p, m, "]}"@) {
                                            None => None,
                                            Some(i10) => {
                                                if i10 == p.len() {
                                                    Some(
                                                        ClaimsView {
                                                            sub: sub as u128,
                                                            exp: exp as u64,
                                                            iat: iat as u64,
                                                            aud: aud_names.map_values(
                                                                |n| service_of_name(n),
                                                            ),
                                                            iss: service_of_name(iss_name),
                                                            scopes: scope_names.map_values(
                                                                |n| scope_of_name(n),
                                                            ),
                                                        },
                                                    )
                                                } else {
                                                    None
                                                }
                                            },
                                        },
                                    }
                                },
                            }
                        }
                    },
                },
            }
        },
    }
}

// ---------------------------------------------------------------------
// a printed payload parses back to the same claim set
// ---------------------------------------------------------------------
proof fn lemma_expect_here(p: Seq<char>, i: int, lit: Seq<char>)
    requires
        0 <= i,
        i + lit.len() <= p.len(),
        forall|j: int| 0 <= j < lit.len() ==> p[i + j] == lit[j],
    ensures
        expect(p, i, lit) == Some(i + lit.len()),
{
    assert(p.subrange(i, i + lit.len()) =~= lit);
}

pub proof fn lemma_scan_finds(p: Seq<char>, i: int, k: int, t: char)
    requires
        0 <= i,
        0 <= k,
        i + k <= p.len(),
        forall|j: int| 0 <= j < k ==> #[trigger] p[i + j] != t,
        i + k == p.len() || p[i + k] == t,
    ensures
        scan_char(p, i, t) == i + k,
    decreases k,
{
    if k > 0 {
        assert(p[i + 0] != t);
        assert forall|j: int| 0 <= j < k - 1 implies #[trigger] p[(i + 1) + j] != t by {
            assert(0 <= j + 1 < k);
            assert(p[i + (j + 1)] != t);
        }
        lemma_scan_finds(p, i + 1, k - 1, t);
    }
}

/// A character that may stand inside a printed identifier list.
pub open spec fn list_char_ok(ch: char) -> bool {
    is_ident_char(ch) || ch == ',' || ch == '"'
}

proof fn lemma_quoted_chars(n: Seq<char>)
    requires
        all_ident(n),
    ensures
        forall|i: int| 0 <= i < quoted(n).len() ==> list_char_ok(#[trigger] quoted(n)[i]),
        forall|i: int| 0 <= i < quoted(n).len() ==> quoted(n)[i] != ',',
{
    assert forall|i: int| 0 <= i < quoted(n).len() implies list_char_ok(quoted(n)[i]) && quoted(
        n,
    )[i] != ',' by {
        if i == 0 {
            assert(quoted(n)[i] == '"');
        } else if i <= n.len() {
            assert(quoted(n)[i] == n[i - 1]);
            assert(is_ident_char(n[i - 1]));
        } else {
            assert(quoted(n)[i] == '"');
        }
    }
}

proof fn lemma_name_list_chars(names: Seq<Seq<char>>)
    requires
        forall|x: int| 0 <= x < names.len() ==> all_ident(#[trigger] names[x]),
    ensures
        forall|i: int|
            0 <= i < name_list(names).len() ==> list_char_ok(#[trigger] name_list(names)[i]),
    decreases names.len(),
{
    if names.len() == 0 {
    } else if names.len() == 1 {
        lemma_quoted_chars(names[0]);
        assert(name_list(names) == quoted(names[0]));
    } else {
        lemma_name_list_chars(names.drop_last());
        lemma_quoted_chars(names.last());
        let l = name_list(names.drop_last());
        let q = quoted(names.last());
        assert forall|i: int| 0 <= i < name_list(names).len() implies list_char_ok(
            name_list(names)[i],
        ) by {
            if i < l.len() {
                assert(name_list(names)[i] == l[i]);
            } else if i == l.len() {
                assert(name_list(names)[i] == ',');
            } else {
                assert(name_list(names)[i] == q[i - l.len() - 1]);
            }
        }
    }
}

proof fn lemma_split_advance(n: Seq<char>, rest: Seq<char>, cur: Seq<char>, acc: Seq<Seq<char>>)
    requires
        forall|j: int| 0 <= j < n.len() ==> n[j] != ',',
    ensures
        split_commas(n + rest, cur, acc) == split_commas(rest, cur + n, acc),
    decreases n.len(),
{
    if n.len() == 0 {
        assert(n + rest =~= rest);
        assert(cur + n =~= cur);
    } else {
        let s = n + rest;
        assert(s[0] == n[0]);
        assert(s.drop_first() =~= n.drop_first() + rest);
        assert(forall|j: int| 0 <= j < n.drop_first().len() ==> n.drop_first()[j] != ',') by {
            assert(forall|j: int| 0 <= j < n.len() - 1 ==> n.drop_first()[j] == n[j + 1]);
        }
        lemma_split_advance(n.drop_first(), rest, cur.push(n[0]), acc);
        assert(cur.push(n[0]) + n.drop_first() =~= cur + n);
    }
}

proof fn lemma_name_list_cons(names: Seq<Seq<char>>)
    requires
        names.len() >= 2,
    ensures
        name_list(names) == quoted(names[0]) + seq![','] + name_list(names.drop_first()),
    decreases names.len(),
{
    if names.len() == 2 {
        assert(names.drop_last().len() == 1);
        assert(names.drop_last()[0] == names[0]);
        assert(names.drop_first().len() == 1);
        assert(names.drop_first()[0] == names[1]);
        assert(names.last() == names[1]);
        assert(name_list(names.drop_last()) == quoted(names[0]));
        assert(name_list(names.drop_first()) == quoted(names[1]));
        assert(name_list(names) =~= quoted(names[0]) + seq![','] + name_list(names.drop_first()));
    } else {
        lemma_name_list_cons(names.drop_last());
        assert(names.drop_last()[0] == names[0]);
        assert(names.drop_last().drop_first() =~= names.drop_first().drop_last());
        assert(names.drop_first().last() == names.last());
        assert(names.drop_first().len() >= 2);
        assert(name_list(names) == name_list(names.drop_last()) + seq![','] + quoted(
            names.last(),
        ));
        assert(name_list(names.drop_first()) == name_list(names.drop_first().drop_last()) + seq![
            ',',
        ] + quoted(names.drop_first().last()));
        assert(name_list(names) =~= quoted(names[0]) + seq![','] + name_list(names.drop_first()));
    }
}

proof fn lemma_split_name_list(names: Seq<Seq<char>>, acc: Seq<Seq<char>>)
    requires
        names.len() >= 1,
        forall|x: int| 0 <= x < names.len() ==> all_ident(#[trigger] names[x]),
    ensures
        split_commas(name_list(names), Seq::<char>::empty(), acc) == acc + names.map_values(
            |n| quoted(n),
        ),
    decreases names.len(),
{
    let q0 = quoted(names[0]);
    lemma_quoted_chars(names[0]);
    if names.len() == 1 {
        assert(name_list(names) == q0);
        assert(q0 + Seq::<char>::empty() =~= q0);
        lemma_split_advance(q0, Seq::<char>::empty(), Seq::<char>::empty(), acc);
        assert(Seq::<char>::empty() + q0 =~= q0);
        assert(split_commas(Seq::<char>::empty(), q0, acc) == acc.push(q0));
        assert(acc.push(q0) =~= acc + names.map_values(|n| quoted(n)));
    } else {
        lemma_name_list_cons(names);
        let tail = name_list(names.drop_first());
        let afterq = seq![','] + tail;
        assert(name_list(names) =~= q0 + afterq);
        lemma_split_advance(q0, afterq, Seq::<char>::empty(), acc);
        assert(Seq::<char>::empty() + q0 =~= q0);
        assert(afterq[0] == ',');
        assert(afterq.drop_first() =~= tail);
        assert(forall|x: int|
            0 <= x < names.drop_first().len() ==> all_ident(#[trigger] names.drop_first()[x]))
            by {
            assert(forall|x: int|
                0 <= x < names.len() - 1 ==> names.drop_first()[x] == names[x + 1]);
        }
        lemma_split_name_list(names.drop_first(), acc.push(q0));
        assert(names.drop_first().map_values(|n| quoted(n)) =~= names.map_values(
            |n| quoted(n),
        ).drop_first());
        assert(acc.push(q0) + names.map_values(|n| quoted(n)).drop_first() =~= acc
            + names.map_values(|n| quoted(n)));
    }
}

proof fn lemma_unquote_quoted(n: Seq<char>)
    requires
        all_ident(n),
    ensures
        unquote(quoted(n)) == Some(n),
{
    let q = quoted(n);
    assert(q.len() == n.len() + 2);
    assert(q[0] == '"');
    assert(q[q.len() - 1] == '"');
    assert(q.subrange(1, q.len() - 1) =~= n);
}

proof fn lemma_unquote_all_quoted(names: Seq<Seq<char>>)
    requires
        forall|x: int| 0 <= x < names.len() ==> all_ident(#[trigger] names[x]),
    ensures
        unquote_all(names.map_values(|n| quoted(n))) == Some(names),
    decreases names.len(),
{
    let items = names.map_values(|n| quoted(n));
    if names.len() == 0 {
        assert(items.len() == 0);
    } else {
        assert(items[0] == quoted(names[0]));
        lemma_unquote_quoted(names[0]);
        assert(forall|x: int|
            0 <= x < names.drop_first().len() ==> all_ident(#[trigger] names.drop_first()[x]))
            by {
            assert(forall|x: int|
                0 <= x < names.len() - 1 ==> names.drop_first()[x] == names[x + 1]);
        }
        lemma_unquote_all_quoted(names.drop_first());
        assert(items.drop_first() =~= names.drop_first().map_values(|n| quoted(n)));
        assert(seq![names[0]] + names.drop_first() =~= names);
    }
}

/// A printed identifier list region parses back to its identifiers.
pub proof fn lemma_name_region_round(names: Seq<Seq<char>>)
    requires
        forall|x: int| 0 <= x < names.len() ==> all_ident(#[trigger] names[x]),
    ensures
        parse_name_region(name_list(names)) == Some(names),
{
    if names.len() == 0 {
        assert(name_list(names).len() == 0);
        assert(names =~= Seq::<Seq<char>>::empty());
    } else {
        if names.len() == 1 {
            assert(name_list(names) == quoted(names[0]));
        } else {
            lemma_name_list_cons(names);
        }
        assert(name_list(names).len() > 0);
        lemma_split_name_list(names, Seq::<Seq<char>>::empty());
        assert(Seq::<Seq<char>>::empty() + names.map_values(|n| quoted(n)) =~= names.map_values(
            |n| quoted(n),
        ));
        lemma_unquote_all_quoted(names);
    }
}

/// Law: a printed payload parses back to exactly the claim set it was
/// printed from.
pub proof fn lemma_payload_round_trip(c: ClaimsView)
    requires
        c.wf(),
    ensures
        parse_payload(payload_chars(c)) == Some(c),
{
    reveal_strlit("{\"sub\":");
    reveal_strlit(",\"exp\":");
    reveal_strlit(",\"iat\":");
    reveal_strlit(",\"aud\":[");
    reveal_strlit("],\"iss\":\"");
    reveal_strlit("\",\"scopes\":[");
    reveal_strlit("]}");
    let p = payload_chars(c);
    let l0 = "{\"sub\":"@;
    let d1 = dec_chars(c.sub as nat);
    let l1 = ",\"exp\":"@;
    let d2 = dec_chars(c.exp as nat);
    let l2 = ",\"iat\":"@;
    let d3 = dec_chars(c.iat as nat);
    let l3 = ",\"aud\":["@;
    let aud_names = c.aud.map_values(|v| service_name(v));
    let r1 = name_list(aud_names);
    let l4 = "],\"iss\":\""@;
    let nm = service_name(c.iss);
    let l5 = "\",\"scopes\":["@;
    let scope_names = c.scopes.map_values(|v| scope_name(v));
    let r2 = name_list(scope_names);
    let l6 = "]}"@;
    let q1 = l0;
    let q2 = q1 + d1;
    let q3 = q2 + l1;
    let q4 = q3 + d2;
    let q5 = q4 + l2;
    let q6 = q5 + d3;
    let q7 = q6 + l3;
    let q8 = q7 + r1;
    let q9 = q8 + l4;
    let q10 = q9 + nm;
    let q11 = q10 + l5;
    let q12 = q11 + r2;
    let q13 = q12 + l6;
    assert(p == q13);
    crate::wire::lemma_val_of_dec(c.sub as nat);
    crate::wire::lemma_val_of_dec(c.exp as nat);
    crate::wire::lemma_val_of_dec(c.iat as nat);
    assert(forall|x: int| 0 <= x < aud_names.len() ==> all_ident(#[trigger] aud_names[x])) by {
        assert(forall|x: int|
            0 <= x < c.aud.len() ==> aud_names[x] == service_name(#[trigger] c.aud[x]));
    }
    assert(forall|x: int| 0 <= x < scope_names.len() ==> all_ident(#[trigger] scope_names[x]))
        by {
        assert(forall|x: int|
            0 <= x < c.scopes.len() ==> scope_names[x] == scope_name(#[trigger] c.scopes[x]));
    }
    // a ladder of prefix views of the payload
    assert(forall|j: int| 0 <= j < q12.len() ==> #[trigger] p[j] == q12[j]);
    assert(forall|j: int| 0 <= j < q11.len() ==> #[trigger] p[j] == q11[j]);
    assert(forall|j: int| 0 <= j < q10.len() ==> #[trigger] p[j] == q10[j]);
    assert(forall|j: int| 0 <= j < q9.len() ==> #[trigger] p[j] == q9[j]);
    assert(forall|j: int| 0 <= j < q8.len() ==> #[trigger] p[j] == q8[j]);
    assert(forall|j: int| 0 <= j < q7.len() ==> #[trigger] p[j] == q7[j]);
    assert(forall|j: int| 0 <= j < q6.len() ==> #[trigger] p[j] == q6[j]);
    assert(forall|j: int| 0 <= j < q5.len() ==> #[trigger] p[j] == q5[j]);
    assert(forall|j: int| 0 <= j < q4.len() ==> #[trigger] p[j] == q4[j]);
    assert(forall|j: int| 0 <= j < q3.len() ==> #[trigger] p[j] == q3[j]);
    assert(forall|j: int| 0 <= j < q2.len() ==> #[trigger] p[j] == q2[j]);
    assert(forall|j: int| 0 <= j < q1.len() ==> #[trigger] p[j] == q1[j]);
    // field by field
    assert(forall|j: int| 0 <= j < l0.len() ==> #[trigger] p[0 + j] == l0[j]);
    lemma_expect_here(p, 0, l0);
    let i1 = l0.len() as int;
    assert(forall|j: int| 0 <= j < d1.len() ==> #[trigger] p[i1 + j] == d1[j]);
    assert(p[i1 + d1.len()] == l1[0]);
    assert(l1[0] == ',');
    assert(!crate::wire::is_digit_char(','));
    crate::wire::lemma_parse_digit_run(p, i1, 0, u128::MAX as int, d1, false);
    let i2 = i1 + d1.len();
    assert(forall|j: int| 0 <= j < l1.len() ==> #[trigger] p[i2 + j] == l1[j]);
    lemma_expect_here(p, i2, l1);
    let i3 = i2 + l1.len();
    assert(forall|j: int| 0 <= j < d2.len() ==> #[trigger] p[i3 + j] == d2[j]);
    assert(p[i3 + d2.len()] == l2[0]);
    assert(l2[0] == ',');
    crate::wire::lemma_parse_digit_run(p, i3, 0, u64::MAX as int, d2, false);
    let i4 = i3 + d2.len();
    assert(forall|j: int| 0 <= j < l2.len() ==> #[trigger] p[i4 + j] == l2[j]);
    lemma_expect_here(p, i4, l2);
    let i5 = i4 + l2.len();
    assert(forall|j: int| 0 <= j < d3.len() ==> #[trigger] p[i5 + j] == d3[j]);
    assert(p[i5 + d3.len()] == l3[0]);
    assert(l3[0] == ',');
    crate::wire::lemma_parse_digit_run(p, i5, 0, u64::MAX as int, d3, false);
    let i6 = i5 + d3.len();
    assert(forall|j: int| 0 <= j < l3.len() ==> #[trigger] p[i6 + j] == l3[j]);
    lemma_expect_here(p, i6, l3);
    let i7 = i6 + l3.len();
    // the audience region runs to the first ']'
    assert(forall|j: int| 0 <= j < r1.len() ==> #[trigger] p[i7 + j] == r1[j]);
    lemma_name_list_chars(aud_names);
    assert(forall|j: int| 0 <= j < r1.len() ==> #[trigger] p[i7 + j] != ']') by {
        assert(forall|j: int| 0 <= j < r1.len() ==> list_char_ok(#[trigger] r1[j]));
    }
    assert(p[i7 + r1.len()] == l4[0]);
    assert(l4[0] == ']');
    lemma_scan_finds(p, i7, r1.len() as int, ']');
    let j1 = i7 + r1.len();
    assert(p.subrange(i7, j1) =~= r1);
    lemma_name_region_round(aud_names);
    assert(forall|j: int| 0 <= j < l4.len() ==> #[trigger] p[j1 + j] == l4[j]);
    lemma_expect_here(p, j1, l4);
    let i8 = j1 + l4.len();
    // the issuer runs to the closing quote
    assert(forall|j: int| 0 <= j < nm.len() ==> #[trigger] p[i8 + j] == nm[j]);
    assert(all_ident(nm));
    assert(forall|j: int| 0 <= j < nm.len() ==> #[trigger] p[i8 + j] != '"') by {
        assert(forall|j: int| 0 <= j < nm.len() ==> is_ident_char(#[trigger] nm[j]));
    }
    assert(p[i8 + nm.len()] == l5[0]);
    assert(l5[0] == '"');
    lemma_scan_finds(p, i8, nm.len() as int, '"');
    let k1 = i8 + nm.len();
    assert(p.subrange(i8, k1) =~= nm);
    assert(forall|j: int| 0 <= j < l5.len() ==> #[trigger] p[k1 + j] == l5[j]);
    lemma_expect_here(p, k1, l5);
    let i9 = k1 + l5.len();
    // the scope region runs to the first ']'
    assert(forall|j: int| 0 <= j < r2.len() ==> #[trigger] p[i9 + j] == r2[j]);
    lemma_name_list_chars(scope_names);
    assert(forall|j: int| 0 <= j < r2.len() ==> #[trigger] p[i9 + j] != ']') by {
        assert(forall|j: int| 0 <= j < r2.len() ==> list_char_ok(#[trigger] r2[j]));
    }
    assert(p[i9 + r2.len()] == l6[0]);
    assert(l6[0] == ']');
    lemma_scan_finds(p, i9, r2.len() as int, ']');
    let m1 = i9 + r2.len();
    assert(p.subrange(i9, m1) =~= r2);
    lemma_name_region_round(scope_names);
    assert(forall|j: int| 0 <= j < l6.len() ==> #[trigger] p[m1 + j] == l6[j]);
    lemma_expect_here(p, m1, l6);
    assert(m1 + l6.len() == p.len());
    // the parsed fields are the original ones
    assert(aud_names.map_values(|n| service_of_name(n)) =~= c.aud);
    assert(service_of_name(nm) == c.iss);
    assert(scope_names.map_values(|n| scope_of_name(n)) =~= c.scopes);
    match parse_payload(p) {
        Some(parsed) => {
            assert(parsed =~= c);
        },
        None => {
            assert(false);
        },
    }
}

/// Executable [`expect`].
pub fn expect_at(p: &Vec<char>, i: usize, lit: &str) -> (r: Option<usize>)
    ensures
        match r {
            Some(j) => expect(p@, i as int, lit@) == Some(j as int) && i <= j <= p@.len(),
            None => expect(p@, i as int, lit@) is None,
        },
{
    let n = lit.unicode_len();
    if i > p.len() || n > p.len() - i {
        return None;
    }
    let mut j: usize = 0;
    while j < n
        invariant
            n == lit@.len(),
            i + n <= p@.len(),
            p@.len() <= usize::MAX,
            j <= n,
            forall|x: int| 0 <= x < j ==> p@[i + x] == lit@[x],
        decreases n - j,
    {
        if p[i + j] != lit.get_char(j) {
            proof {
                assert(p@.subrange(i as int, i + n)[j as int] != lit@[j as int]);
            }
            return None;
        }
        j = j + 1;
    }
    proof {
        assert(p@.subrange(i as int, i + n) =~= lit@);
    }
    Some(i + n)
}

/// Executable [`scan_char`].
pub fn scan_to(p: &Vec<char>, i: usize, t: char) -> (r: usize)
    requires
        i <= p@.len(),
    ensures
        r == scan_char(p@, i as int, t),
        i <= r <= p@.len(),
{
    let mut j: usize = i;
    while j < p.len()
        invariant
            i <= j <= p@.len(),
            scan_char(p@, i as int, t) == scan_char(p@, j as int, t),
        decreases p@.len() - j,
    {
        if p[j] == t {
            proof {
                lemma_scan_props(p@, i as int, t);
            }
            return j;
        }
        j = j + 1;
    }
    proof {
        lemma_scan_props(p@, i as int, t);
    }
    j
}

/// Cuts a list region into its comma-separated pieces.
fn split_region(p: &Vec<char>, start: usize, end: usize) -> (r: Vec<String>)
    requires
        start <= end <= p@.len(),
    ensures
        r.deep_view() == split_commas(
            p@.subrange(start as int, end as int),
            Seq::<char>::empty(),
            Seq::<Seq<char>>::empty(),
        ),
{
    let mut items: Vec<String> = Vec::new();
    let mut cur: String = String::new();
    let mut i: usize = start;
    proof {
        assert(items.deep_view() =~= Seq::<Seq<char>>::empty());
    }
    while i < end
        invariant
            start <= i <= end <= p@.len(),
            split_commas(
                p@.subrange(start as int, end as int),
                Seq::<char>::empty(),
                Seq::<Seq<char>>::empty(),
            ) == split_commas(p@.subrange(i as int, end as int), cur@, items.deep_view()),
        decreases end - i,
    {
        let c = p[i];
        let ghost prev_items = items.deep_view();
        let ghost prev_cur = cur@;
        proof {
            assert(p@.subrange(i as int, end as int).drop_first() =~= p@.subrange(
                i + 1,
                end as int,
            ));
            assert(p@.subrange(i as int, end as int)[0] == p@[i as int]);
        }
        if c == ',' {
            items.push(cur);
            cur = String::new();
            proof {
                assert(items.deep_view() =~= prev_items.push(prev_cur));
            }
        } else {
            push_char(&mut cur, c);
            proof {
                assert(items.deep_view() =~= prev_items);
            }
        }
        i = i + 1;
    }
    proof {
        assert(p@.subrange(end as int, end as int) =~= Seq::<char>::empty());
    }
    let ghost last_items = items.deep_view();
    let ghost last_cur = cur@;
    items.push(cur);
    proof {
        assert(items.deep_view() =~= last_items.push(last_cur));
    }
    items
}

/// The identifier inside one quoted item, if the item is well formed.
fn unquote_item(item: &String) -> (r: Option<String>)
    ensures
        match r {
            Some(n) => unquote(item@) == Some(n@),
            None => unquote(item@) is None,
        },
{
    let s = item.as_str();
    let len = s.unicode_len();
    if len < 2 {
        return None;
    }
    if s.get_char(0) != '"' || s.get_char(len - 1) != '"' {
        return None;
    }
    let mut n = String::new();
    let mut i: usize = 1;
    while i < len - 1
        invariant
            len == item@.len(),
            2 <= len,
            1 <= i <= len - 1,
            s@ == item@,
            n@ == item@.subrange(1, i as int),
            forall|x: int| 1 <= x < i ==> is_ident_char(item@[x]),
        decreases len - 1 - i,
    {
        let c = s.get_char(i);
        if !crate::wire::ident_char(c) {
            proof {
                assert(item@.subrange(1, item@.len() - 1)[i - 1] == item@[i as int]);
            }
            return None;
        }
        push_char(&mut n, c);
        proof {
            assert(item@.subrange(1, i + 1) =~= item@.subrange(1, i as int).push(item@[i as int]));
        }
        i = i + 1;
    }
    proof {
        assert(n@ =~= item@.subrange(1, item@.len() - 1));
        assert(all_ident(item@.subrange(1, item@.len() - 1)));
    }
    Some(n)
}

/// The identifiers of a list region.
fn parse_region_names(p: &Vec<char>, start: usize, end: usize) -> (r: Option<Vec<String>>)
    requires
        start <= end <= p@.len(),
    ensures
        match r {
            Some(names) => parse_name_region(p@.subrange(start as int, end as int)) == Some(
                names.deep_view(),
            ),
            None => parse_name_region(p@.subrange(start as int, end as int)) is None,
        },
{
    if start == end {
        proof {
            assert(p@.subrange(start as int, end as int) =~= Seq::<char>::empty());
        }
        return Some(Vec::new());
    }
    let items = split_region(p, start, end);
    let ghost items_seq = items.deep_view();
    let mut names: Vec<String> = Vec::new();
    let mut k: usize = 0;
    proof {
        assert(items_seq.skip(0) =~= items_seq);
        assert(names.deep_view() =~= Seq::<Seq<char>>::empty());
        if unquote_all(items_seq) is Some {
            Seq::add_empty_left(names.deep_view(), unquote_all(items_seq)->Some_0);
        }
    }
    while k < items.len()
        invariant
            items.deep_view() == items_seq,
            items@.len() == items_seq.len(),
            k <= items_seq.len(),
            start < end <= p@.len(),
            items_seq == split_commas(
                p@.subrange(start as int, end as int),
                Seq::<char>::empty(),
                Seq::<Seq<char>>::empty(),
            ),
            unquote_all(items_seq.skip(k as int)) is Some ==> unquote_all(items_seq) == Some(
                names.deep_view() + unquote_all(items_seq.skip(k as int))->Some_0,
            ),
            unquote_all(items_seq.skip(k as int)) is None ==> unquote_all(items_seq) is None,
        decreases items_seq.len() - k,
    {
        proof {
            assert(items_seq.skip(k as int)[0] == items_seq[k as int]);
            assert(items_seq.skip(k as int).drop_first() =~= items_seq.skip(k + 1));
        }
        let ghost prev_names = names.deep_view();
        match unquote_item(&items[k]) {
            None => {
                return None;
            },
            Some(n) => {
                let ghost nv = n@;
                names.push(n);
                proof {
                    assert(names.deep_view() =~= prev_names.push(nv));
                    if unquote_all(items_seq.skip(k + 1)) is Some {
                        let rest = unquote_all(items_seq.skip(k + 1))->Some_0;
                        assert(unquote_all(items_seq.skip(k as int)) == Some(seq![nv] + rest));
                        assert(prev_names + (seq![nv] + rest) =~= prev_names.push(nv) + rest);
                    }
                }
            },
        }
        k = k + 1;
    }
    proof {
        assert(items_seq.skip(items_seq.len() as int) =~= Seq::<Seq<char>>::empty());
        assert(unquote_all(Seq::<Seq<char>>::empty()) == Some(Seq::<Seq<char>>::empty()));
        assert(names.deep_view() + Seq::<Seq<char>>::empty() =~= names.deep_view());
        assert(p@.subrange(start as int, end as int).len() > 0);
    }
    Some(names)
}

/// Parses a payload into a claim set, exactly when it has the canonical
/// shape.
pub fn claims_of_payload(p: &Vec<char>) -> (r: Option<Claims>)
    ensures
        match r {
            Some(c) => parse_payload(p@) == Some(c@),
            None => parse_payload(p@) is None,
        },
{
    let Some(i1) = expect_at(p, 0, "{\"sub\":") else { return None };
    let Some((sub, i2)) = parse_dec_u128(p, i1, 0, u128::MAX, false) else { return None };
    let Some(i3) = expect_at(p, i2, ",\"exp\":") else { return None };
    let Some((exp, i4)) = parse_dec_u128(p, i3, 0, u64::MAX as u128, false) else { return None };
    let Some(i5) = expect_at(p, i4, ",\"iat\":") else { return None };
    let Some((iat, i6)) = parse_dec_u128(p, i5, 0, u64::MAX as u128, false) else { return None };
    let Some(i7) = expect_at(p, i6, ",\"aud\":[") else { return None };
    let j = scan_to(p, i7, ']');
    let Some(aud_names) = parse_region_names(p, i7, j) else { return None };
    let Some(i8) = expect_at(p, j, "],\"iss\":\"") else { return None };
    let k = scan_to(p, i8, '"');
    let iss_item = collect_ident(p, i8, k);
    let Some(iss_name) = iss_item else { return None };
    let Some(i9) = expect_at(p, k, "\",\"scopes\":[") else { return None };
    let m = scan_to(p, i9, ']');
    let Some(scope_names) = parse_region_names(p, i9, m) else { return None };
    let Some(i10) = expect_at(p, m, "]}") else { return None };
    if i10 != p.len() {
        return None;
    }
    let mut aud: Vec<Service> = Vec::new();
    let mut x: usize = 0;
    let ghost aud_seq = aud_names.deep_view();
    while x < aud_names.len()
        invariant
            aud_names.deep_view() == aud_seq,
            aud_names@.len() == aud_seq.len(),
            x <= aud_seq.len(),
            aud.deep_view() =~= aud_seq.subrange(0, x as int).map_values(|n| service_of_name(n)),
        decreases aud_seq.len() - x,
    {
        proof {
            assert(aud_names@[x as int].deep_view() == aud_seq[x as int]);
        }
        let ghost prev = aud.deep_view();
        let svc = service_from_name(aud_names[x].clone());
        aud.push(svc);
        proof {
            assert(aud.deep_view() =~= prev.push(service_of_name(aud_seq[x as int])));
            assert(aud_seq.subrange(0, x + 1) =~= aud_seq.subrange(0, x as int).push(
                aud_seq[x as int],
            ));
            assert(aud.deep_view() =~= aud_seq.subrange(0, x + 1).map_values(
                |n| service_of_name(n),
            ));
        }
        x = x + 1;
    }
    let iss = service_from_name(iss_name);
    let mut scopes: Vec<Scope> = Vec::new();
    let mut y: usize = 0;
    let ghost scope_seq = scope_names.deep_view();
    while y < scope_names.len()
        invariant
            scope_names.deep_view() == scope_seq,
            scope_names@.len() == scope_seq.len(),
            y <= scope_seq.len(),
            scopes.deep_view() =~= scope_seq.subrange(0, y as int).map_values(
                |n| scope_of_name(n),
            ),
        decreases scope_seq.len() - y,
    {
        proof {
            assert(scope_names@[y as int].deep_view() == scope_seq[y as int]);
        }
        let ghost prev = scopes.deep_view();
        let sc = scope_from_name(scope_names[y].clone());
        scopes.push(sc);
        proof {
            assert(scopes.deep_view() =~= prev.push(scope_of_name(scope_seq[y as int])));
            assert(scope_seq.subrange(0, y + 1) =~= scope_seq.subrange(0, y as int).push(
                scope_seq[y as int],
            ));
            assert(scopes.deep_view() =~= scope_seq.subrange(0, y + 1).map_values(
                |n| scope_of_name(n),
            ));
        }
        y = y + 1;
    }
    proof {
        assert(aud_seq.subrange(0, aud_seq.len() as int) =~= aud_seq);
        assert(scope_seq.subrange(0, scope_seq.len() as int) =~= scope_seq);
    }
    Some(
        Claims {
            sub,
            exp: exp as u64,
            iat: iat as u64,
            aud,
            iss,
            scopes,
        },
    )
}

/// The identifier characters between `start` and `end`, or nothing if a
/// character outside the identifier set stands there.
fn collect_ident(p: &Vec<char>, start: usize, end: usize) -> (r: Option<String>)
    requires
        start <= end <= p@.len(),
    ensures
        match r {
            Some(n) => n@ == p@.subrange(start as int, end as int) && all_ident(n@),
            None => !all_ident(p@.subrange(start as int, end as int)),
        },
{
    let mut n = String::new();
    let mut i: usize = start;
    while i < end
        invariant
            start <= i <= end <= p@.len(),
            n@ == p@.subrange(start as int, i as int),
            forall|x: int| start <= x < i ==> is_ident_char(p@[x]),
        decreases end - i,
    {
        let c = p[i];
        if !crate::wire::ident_char(c) {
            proof {
                assert(p@.subrange(start as int, end as int)[i - start] == p@[i as int]);
            }
            return None;
        }
        push_char(&mut n, c);
        proof {
            assert(p@.subrange(start as int, i + 1) =~= p@.subrange(start as int, i as int).push(
                p@[i as int],
            ));
        }
        i = i + 1;
    }
    proof {
        assert(forall|x: int|
            0 <= x < end - start ==> p@.subrange(start as int, end as int)[x] == p@[start + x]);
    }
    Some(n)
}

} // verus!
