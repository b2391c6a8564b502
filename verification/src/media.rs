//! Media URL helpers.

use vstd::prelude::*;

use crate::text::push_char;

verus! {

/// Whether the text starts with `.webp`.
pub open spec fn starts_webp(s: Seq<char>) -> bool {
    s.len() >= 5 && s[0] == '.' && s[1] == 'w' && s[2] == 'e' && s[3] == 'b' && s[4] == 'p'
}

/// The replacement written for each `.webp` occurrence.
pub open spec fn thumb_chars() -> Seq<char> {
    seq!['.', 't', 'h', 'u', 'm', 'b', 'n', 'a', 'i', 'l', '.', 'w', 'e', 'b', 'p']
}

/// The input with every `.webp` replaced by `.thumbnail.webp`, scanning
/// left to right without overlap.
pub open spec fn thumbnail_url(s: Seq<char>) -> Seq<char>
    decreases s.len(),
{
    if starts_webp(s) {
        thumb_chars() + thumbnail_url(s.skip(5))
    } else if s.len() == 0 {
        Seq::empty()
    } else {
        seq![s[0]] + thumbnail_url(s.drop_first())
    }
}

/// The thumbnail URL of an image URL: every `.webp` becomes
/// `.thumbnail.webp`.
pub fn image_url_to_thumbnail_url(url: &str) -> (r: String)
    ensures
        r@ == thumbnail_url(url@),
{
    let ghost s = url@;
    let n = url.unicode_len();
    let mut out = String::new();
    let mut i: usize = 0;
    proof {
        assert(s.skip(0) =~= s);
        assert(out@ + thumbnail_url(s) =~= thumbnail_url(s));
    }
    loop
        invariant
            n == s.len(),
            s == url@,
            i <= n,
            thumbnail_url(s) == out@ + thumbnail_url(s.skip(i as int)),
        ensures
            i == n,
            thumbnail_url(s) == out@ + thumbnail_url(s.skip(i as int)),
        decreases n - i,
    {
        if i == n {
            break;
        }
        proof {
            assert(s.skip(i as int)[0] == s[i as int]);
            assert(s.skip(i as int).drop_first() =~= s.skip(i + 1));
        }
        if n - i >= 5 && url.get_char(i) == '.' && url.get_char(i + 1) == 'w' && url.get_char(
            i + 2,
        ) == 'e' && url.get_char(i + 3) == 'b' && url.get_char(i + 4) == 'p' {
            proof {
                assert(forall|j: int| 0 <= j < 5 ==> s.skip(i as int)[j] == s[i + j]);
                assert(starts_webp(s.skip(i as int)));
                assert(s.skip(i as int).skip(5) =~= s.skip(i + 5));
            }
            let ghost prev = out@;
            push_char(&mut out, '.');
            push_char(&mut out, 't');
            push_char(&mut out, 'h');
            push_char(&mut out, 'u');
            push_char(&mut out, 'm');
            push_char(&mut out, 'b');
            push_char(&mut out, 'n');
            push_char(&mut out, 'a');
            push_char(&mut out, 'i');
            push_char(&mut out, 'l');
            push_char(&mut out, '.');
            push_char(&mut out, 'w');
            push_char(&mut out, 'e');
            push_char(&mut out, 'b');
            push_char(&mut out, 'p');
            proof {
                assert(out@ =~= prev + thumb_chars());
                assert(forall|t: Seq<char>| (prev + thumb_chars()) + t =~= prev + (thumb_chars()
                    + t));
            }
            i = i + 5;
        } else {
            proof {
                assert(!starts_webp(s.skip(i as int))) by {
                    if s.skip(i as int).len() >= 5 {
                        assert(forall|j: int| 0 <= j < 5 ==> s.skip(i as int)[j] == s[i + j]);
                    }
                }
            }
            let ghost prev = out@;
            push_char(&mut out, url.get_char(i));
            proof {
                assert(forall|t: Seq<char>| out@ + t =~= prev + (seq![s[i as int]] + t));
            }
            i = i + 1;
        }
    }
    proof {
        assert(s.skip(n as int) =~= Seq::<char>::empty());
        assert(out@ + Seq::<char>::empty() =~= out@);
    }
    out
}

} // verus!
