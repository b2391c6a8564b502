use star_haven_platform::cookie::{build_set_cookie, get_cookie_value};
use star_haven_platform::media::image_url_to_thumbnail_url;
use star_haven_platform::slug::to_slug;

#[test]
fn cookie_value_is_found() {
    assert_eq!(get_cookie_value("session=abc", "session"), Some(String::from("abc")));
    assert_eq!(
        get_cookie_value("theme=dark; session=abc; lang=en", "session"),
        Some(String::from("abc"))
    );
    // names are trimmed before comparison, including Unicode whitespace
    assert_eq!(get_cookie_value("  session =abc", "session"), Some(String::from("abc")));
    assert_eq!(
        get_cookie_value("\u{00a0}session\u{00a0}=abc", "session"),
        Some(String::from("abc"))
    );
}

#[test]
fn cookie_value_absent_or_empty() {
    assert_eq!(get_cookie_value("theme=dark", "session"), None);
    assert_eq!(get_cookie_value("session=", "session"), None);
    assert_eq!(get_cookie_value("session=   ", "session"), None);
    assert_eq!(get_cookie_value("", "session"), None);
    assert_eq!(get_cookie_value("session", "session"), None);
}

#[test]
fn cookie_first_match_wins() {
    assert_eq!(
        get_cookie_value("session=first; session=second", "session"),
        Some(String::from("first"))
    );
}

#[test]
fn set_cookie_format() {
    assert_eq!(
        build_set_cookie("session", "tok", 2592000, false),
        "session=tok; Path=/;  SameSite=Lax; HttpOnly; Max-Age=2592000"
    );
    assert_eq!(
        build_set_cookie("session", "tok", 60, true),
        "session=tok; Path=/; Secure; SameSite=Lax; HttpOnly; Max-Age=60"
    );
}

#[test]
fn slugs_keep_letters_digits_and_single_hyphens() {
    assert_eq!(to_slug("Hello World"), "hello-world");
    assert_eq!(to_slug("  Great   Mod!  "), "great-mod");
    assert_eq!(to_slug("C++ & Rust"), "c-rust");
    assert_eq!(to_slug("already-slugged"), "alreadyslugged");
    assert_eq!(to_slug(""), "");
    assert_eq!(to_slug("   "), "");
}

#[test]
fn slugs_lowercase_unicode_first() {
    // the Kelvin sign lowercases to an ASCII 'k' and so survives
    assert_eq!(to_slug("\u{212a}elvin"), "kelvin");
    // accented letters stay non-ASCII after lowercasing and are dropped
    assert_eq!(to_slug("CAF\u{c9} Mod"), "caf-mod");
}

#[test]
fn thumbnail_urls() {
    assert_eq!(
        image_url_to_thumbnail_url("/assets/mod_media/abc.webp"),
        "/assets/mod_media/abc.thumbnail.webp"
    );
    assert_eq!(image_url_to_thumbnail_url("plain.png"), "plain.png");
    assert_eq!(image_url_to_thumbnail_url(".webp.webp"), ".thumbnail.webp.thumbnail.webp");
}
