use star_haven_platform::markup::{
    AuthorToolbar, DashboardPage, Footer, HomePage, LinkButton, ModSummary, Nav, NavItem,
    PageShell, SessionRequiredBanner, Shell, ShopPage,
};

#[test]
fn footer_is_fixed() {
    assert_eq!(Footer(), "<footer class=\"bg-gray-800\">I am the footer</footer>");
}

#[test]
fn nav_item_marks_current_route() {
    assert_eq!(
        NavItem("/browse", "browse", false),
        "<li><a href=\"/browse\" class=\"nav-link\">browse</a></li>"
    );
    assert_eq!(
        NavItem("/browse", "browse", true),
        "<li><a href=\"/browse\" class=\"nav-link nav-link-current\">browse</a></li>"
    );
}

#[test]
fn nav_shows_sign_in_when_logged_out() {
    let nav = Nav(None);
    assert!(nav.contains("<a href=\"/auth\">sign in</a>"));
    assert!(nav.contains("community"));
    assert!(!nav.contains("sign out"));
}

#[test]
fn nav_shows_user_chip_when_logged_in() {
    let name = String::from("alice");
    let nav = Nav(Some(&name));
    assert!(nav.contains("<p>alice</p>"));
    assert!(nav.contains("sign out"));
    assert!(!nav.contains(">sign in<"));
}

#[test]
fn shell_wraps_children() {
    let name = String::from("alice");
    let page = Shell(Some(&name), "<p>hello</p>");
    assert!(page.starts_with("<div class=\"layout\">"));
    assert!(page.contains("<main><p>hello</p></main>"));
    assert!(page.ends_with("</div></div>"));
    assert!(page.contains("I am the footer"));
}

#[test]
fn page_shell_and_home() {
    assert_eq!(
        PageShell("X"),
        "<div><nav>Star Haven</nav><main>X</main><footer><p>I am the footer</p></footer></div>"
    );
    assert!(HomePage().contains("Hello, world!"));
}

#[test]
fn link_button_renders() {
    assert_eq!(
        LinkButton("/create/new", "Create a new mod"),
        "<a href=\"/create/new\" class=\"button\">Create a new mod</a>"
    );
}

#[test]
fn session_banner_only_for_visitors() {
    assert_eq!(SessionRequiredBanner(true), "");
    let banner = SessionRequiredBanner(false);
    assert!(banner.contains("Sign in required"));
    assert!(banner.contains("href=\"/auth\""));
}

#[test]
fn author_toolbar_shows_publish_state() {
    let published = AuthorToolbar("my-mod", true);
    assert!(published.contains("href=\"/mod/my-mod?edit\""));
    assert!(published.contains("<button>Published</button>"));
    let draft = AuthorToolbar("my-mod", false);
    assert!(draft.contains("<button>Publish</button>"));
}

#[test]
fn shop_page_lists_mods_in_order() {
    let mods = vec![
        ModSummary { slug: String::from("first"), name: String::from("First Mod") },
        ModSummary { slug: String::from("second"), name: String::from("Second Mod") },
    ];
    let page = ShopPage(None, &mods);
    let a = page.find("/mod/first").expect("first card");
    let b = page.find("/mod/second").expect("second card");
    assert!(a < b);
    assert!(page.contains("First Mod"));
}

#[test]
fn dashboard_hides_mods_for_visitors() {
    let empty = DashboardPage(None, None);
    assert!(!empty.contains("Your mods"));
    let name = String::from("alice");
    let mods = vec![ModSummary { slug: String::from("m"), name: String::from("M") }];
    let full = DashboardPage(Some(&name), Some(&mods));
    assert!(full.contains("Your mods"));
    assert!(full.contains("/mod/m"));
    assert!(full.contains("Create a new mod"));
}
