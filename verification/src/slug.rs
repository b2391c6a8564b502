//! URL slugs: the address-safe form of a mod title.

use vstd::prelude::*;

use crate::text::{ascii_alnum, is_ascii_alnum, push_char};

verus! {

/// What `str::to_lowercase` returns for a text: its Unicode lowercase
/// form, a function of the characters alone.
pub uninterp spec fn lower_of(s: Seq<char>) -> Seq<char>;

/// Relies on `str::to_lowercase`: the Unicode lowercase form of the
/// text, determined by its characters alone, the same on every machine.
#[verifier::external_body]
fn lowercase(s: &str) -> (r: String)
    ensures
        r@ == lower_of(s@),
{
    s.to_lowercase()
}

/// The slug characters of the (already lowercased) input from here on:
/// ASCII letters and digits kept, spaces turned into single hyphens,
/// everything else dropped. `after_hyphen` records whether the last
/// emitted character was a hyphen (or nothing was emitted yet), so
/// hyphens never repeat and never lead.
pub open spec fn slug_core(s: Seq<char>, after_hyphen: bool) -> Seq<char>
    decreases s.len(),
{
    if s.len() == 0 {
        Seq::empty()
    } else {
        let c = s[0];
        if is_ascii_alnum(c) {
            seq![c] + slug_core(s.drop_first(), false)
        } else if c == ' ' && !after_hyphen {
            seq!['-'] + slug_core(s.drop_first(), true)
        } else {
            slug_core(s.drop_first(), after_hyphen)
        }
    }
}

/// The input with trailing hyphens removed.
pub open spec fn trim_dashes_right(s: Seq<char>) -> Seq<char>
    decreases s.len(),
{
    if s.len() > 0 && s[s.len() - 1] == '-' {
        trim_dashes_right(s.subrange(0, s.len() - 1))
    } else {
        s
    }
}

/// The slug of a name: the name is lowercased, then only ASCII letters,
/// digits and single hyphens (from spaces) survive, with no hyphen at
/// either end.
pub open spec fn slug_spec(s: Seq<char>) -> Seq<char> {
    trim_dashes_right(slug_core(lower_of(s), true))
}

proof fn lemma_trim_dashes_at(s: Seq<char>, k: int)
    requires
        0 <= k <= s.len(),
        forall|i: int| k <= i < s.len() ==> s[i] == '-',
        k == 0 || s[k - 1] != '-',
    ensures
        trim_dashes_right(s) == s.subrange(0, k),
    decreases s.len() - k,
{
    if k == s.len() {
        if s.len() > 0 && s[s.len() - 1] == '-' {
            assert(false);
        }
        assert(s.subrange(0, s.len() as int) =~= s);
    } else {
        assert(s[s.len() - 1] == '-');
        let t = s.subrange(0, s.len() - 1);
        assert(forall|i: int| k <= i < t.len() ==> t[i] == '-');
        lemma_trim_dashes_at(t, k);
        assert(t.subrange(0, k) =~= s.subrange(0, k));
    }
}

/// Converts a name into its slug: the name is lowercased, only ASCII
/// letters, digits and hyphens survive; runs of spaces collapse to one
/// hyphen; hyphens never start or end the slug.
pub fn to_slug(name: &str) -> (r: String)
    ensures
        r@ == slug_spec(name@),
{
    let lowered = lowercase(name);
    let low = lowered.as_str();
    let ghost s = lower_of(name@);
    let n = low.unicode_len();
    let mut out: Vec<char> = Vec::new();
    let mut after_hyphen = true;
    let mut i: usize = 0;
    proof {
        assert(s.skip(0) =~= s);
        assert(out@ + slug_core(s, true) =~= slug_core(s, true));
    }
    while i < n
        invariant
            n == s.len(),
            s == lower_of(name@),
            low@ == s,
            i <= n,
            slug_core(s, true) == out@ + slug_core(s.skip(i as int), after_hyphen),
            after_hyphen == (out@.len() == 0 || out@[out@.len() - 1] == '-'),
        decreases n - i,
    {
        let c = low.get_char(i);
        proof {
            assert(s.skip(i as int)[0] == s[i as int]);
            assert(s.skip(i as int).drop_first() =~= s.skip(i + 1));
        }
        if ascii_alnum(c) {
            out.push(c);
            after_hyphen = false;
            proof {
                assert(forall|t: Seq<char>| out@ + t =~= out@.drop_last() + (seq![c] + t));
            }
        } else if c == ' ' && !after_hyphen {
            out.push('-');
            after_hyphen = true;
            proof {
                assert(forall|t: Seq<char>| out@ + t =~= out@.drop_last() + (seq!['-'] + t));
            }
        }
        i = i + 1;
    }
    proof {
        assert(s.skip(n as int) =~= Seq::<char>::empty());
        assert(out@ + Seq::<char>::empty() =~= out@);
        assert(slug_core(s, true) == out@);
    }
    // drop the trailing hyphen, if the name ended in spaces
    let mut end: usize = out.len();
    loop
        invariant
            end <= out@.len(),
            forall|x: int| end <= x < out@.len() ==> out@[x] == '-',
        ensures
            end <= out@.len(),
            forall|x: int| end <= x < out@.len() ==> out@[x] == '-',
            end == 0 || out@[end - 1] != '-',
        decreases end,
    {
        if end == 0 {
            break;
        }
        if out[end - 1] != '-' {
            break;
        }
        end = end - 1;
    }
    proof {
        lemma_trim_dashes_at(out@, end as int);
    }
    let mut r = String::new();
    let mut j: usize = 0;
    while j < end
        invariant
            j <= end <= out@.len(),
            r@ == out@.subrange(0, j as int),
        decreases end - j,
    {
        push_char(&mut r, out[j]);
        proof {
            assert(out@.subrange(0, j + 1) =~= out@.subrange(0, j as int).push(out@[j as int]));
        }
        j = j + 1;
    }
    r
}

} // verus!
