//! Page markup, rendered as plain strings.
//!
//! The components here build the exact HTML the application serves; the
//! surrounding application supplies the dynamic inputs (the signed-in
//! username, the mod lists, the current route) and ships the strings to
//! the client. Every component's output is pinned character for
//! character.

#![allow(non_snake_case)]

use vstd::prelude::*;

verus! {

/// A mod as the listing pages show it: where it lives and what it is
/// called.
#[derive(Debug, Clone)]
pub struct ModSummary {
    /// The address part of the mod's page.
    pub slug: String,
    /// The mod's display name.
    pub name: String,
}

/// Specification-level mirror of [`ModSummary`].
pub struct ModSummaryView {
    pub slug: Seq<char>,
    pub name: Seq<char>,
}

impl View for ModSummary {
    type V = ModSummaryView;

    open spec fn view(&self) -> ModSummaryView {
        ModSummaryView { slug: self.slug@, name: self.name@ }
    }
}

impl DeepView for ModSummary {
    type V = ModSummaryView;

    open spec fn deep_view(&self) -> ModSummaryView {
        self@
    }
}

/// The footer shown under every page.
pub open spec fn footer_chars() -> Seq<char> {
    "<footer class=\"bg-gray-800\">I am the footer</footer>"@
}

/// Renders the shared footer.
pub fn Footer() -> (r: String)
    ensures
        r@ == footer_chars(),
{
    String::from_str("<footer class=\"bg-gray-800\">I am the footer</footer>")
}

/// One navigation entry; highlighted when it is the current route.
pub open spec fn nav_item_chars(href: Seq<char>, children: Seq<char>, is_current: bool) -> Seq<
    char,
> {
    "<li><a href=\""@ + href + "\" class=\"nav-link"@ + (if is_current {
        " nav-link-current"@
    } else {
        ""@
    }) + "\">"@ + children + "</a></li>"@
}

/// Renders one navigation entry.
pub fn NavItem(href: &str, children: &str, is_current: bool) -> (r: String)
    ensures
        r@ == nav_item_chars(href@, children@, is_current),
{
    let mut out = String::new();
    out.append("<li><a href=\"");
    out.append(href);
    out.append("\" class=\"nav-link");
    if is_current {
        out.append(" nav-link-current");
    }
    out.append("\">");
    out.append(children);
    out.append("</a></li>");
    proof {
        reveal_strlit("");
        assert(out@ =~= nav_item_chars(href@, children@, is_current));
    }
    out
}

/// The session corner of the navigation: the signed-in user's chip, or
/// an invitation to sign in.
pub open spec fn session_status_chars(username: Option<Seq<char>>) -> Seq<char> {
    match username {
        Some(name) => "<div class=\"session-chip\"><p>"@ + name
            + "</p><button title=\"Log out\">sign out</button></div>"@,
        None => "<a href=\"/auth\">sign in</a>"@,
    }
}

/// The site navigation: the fixed links, then the session corner.
pub open spec fn nav_chars(username: Option<Seq<char>>) -> Seq<char> {
    "<nav class=\"site-nav\"><ul>"@ + nav_item_chars("/"@, "Star Haven"@, false)
        + nav_item_chars("/browse"@, "browse"@, false) + nav_item_chars(
        "/create"@,
        "create"@,
        false,
    ) + nav_item_chars("https://discord.com/invite/star-haven"@, "community"@, false)
        + nav_item_chars("/about"@, "about"@, false) + "<li class=\"mt-auto\">"@
        + session_status_chars(username) + "</li></ul></nav>"@
}

/// Renders the site navigation for the given signed-in username, if
/// any.
pub fn Nav(username: Option<&String>) -> (r: String)
    ensures
        r@ == nav_chars(
            match username {
                Some(n) => Some(n@),
                None => None,
            },
        ),
{
    let mut out = String::new();
    out.append("<nav class=\"site-nav\"><ul>");
    let item = NavItem("/", "Star Haven", false);
    out.append(item.as_str());
    let item = NavItem("/browse", "browse", false);
    out.append(item.as_str());
    let item = NavItem("/create", "create", false);
    out.append(item.as_str());
    let item = NavItem("https://discord.com/invite/star-haven", "community", false);
    out.append(item.as_str());
    let item = NavItem("/about", "about", false);
    out.append(item.as_str());
    out.append("<li class=\"mt-auto\">");
    match username {
        Some(name) => {
            out.append("<div class=\"session-chip\"><p>");
            out.append(name.as_str());
            out.append("</p><button title=\"Log out\">sign out</button></div>");
        },
        None => {
            out.append("<a href=\"/auth\">sign in</a>");
        },
    }
    out.append("</li></ul></nav>");
    proof {
        assert(out@ =~= nav_chars(
            match username {
                Some(n) => Some(n@),
                None => None,
            },
        ));
    }
    out
}

/// The page shell: navigation, the page's own content, footer.
pub open spec fn shell_chars(username: Option<Seq<char>>, children: Seq<char>) -> Seq<char> {
    "<div class=\"layout\">"@ + nav_chars(username) + "<div class=\"content\"><main>"@ + children
        + "</main>"@ + footer_chars() + "</div></div>"@
}

/// Renders the layout shell around a page body.
pub fn Shell(username: Option<&String>, children: &str) -> (r: String)
    ensures
        r@ == shell_chars(
            match username {
                Some(n) => Some(n@),
                None => None,
            },
            children@,
        ),
{
    let mut out = String::new();
    out.append("<div class=\"layout\">");
    let nav = Nav(username);
    out.append(nav.as_str());
    out.append("<div class=\"content\"><main>");
    out.append(children);
    out.append("</main>");
    let footer = Footer();
    out.append(footer.as_str());
    out.append("</div></div>");
    proof {
        assert(out@ =~= shell_chars(
            match username {
                Some(n) => Some(n@),
                None => None,
            },
            children@,
        ));
    }
    out
}

/// A simple page frame with plain navigation and footer text.
pub open spec fn page_shell_chars(children: Seq<char>) -> Seq<char> {
    "<div><nav>Star Haven</nav><main>"@ + children
        + "</main><footer><p>I am the footer</p></footer></div>"@
}

/// Renders the plain page frame around a page body.
pub fn PageShell(children: &str) -> (r: String)
    ensures
        r@ == page_shell_chars(children@),
{
    let mut out = String::new();
    out.append("<div><nav>Star Haven</nav><main>");
    out.append(children);
    out.append("</main><footer><p>I am the footer</p></footer></div>");
    proof {
        assert(out@ =~= page_shell_chars(children@));
    }
    out
}

/// The landing page.
pub fn HomePage() -> (r: String)
    ensures
        r@ == page_shell_chars("Hello, world!"@),
{
    PageShell("Hello, world!")
}

/// A link styled as a button.
pub open spec fn link_button_chars(href: Seq<char>, children: Seq<char>) -> Seq<char> {
    "<a href=\""@ + href + "\" class=\"button\">"@ + children + "</a>"@
}

/// Renders a link styled as a button.
pub fn LinkButton(href: &str, children: &str) -> (r: String)
    ensures
        r@ == link_button_chars(href@, children@),
{
    let mut out = String::new();
    out.append("<a href=\"");
    out.append(href);
    out.append("\" class=\"button\">");
    out.append(children);
    out.append("</a>");
    proof {
        assert(out@ =~= link_button_chars(href@, children@));
    }
    out
}

/// The sign-in prompt: shown to signed-out visitors, nothing for a
/// signed-in one.
pub open spec fn session_banner_chars(is_logged_in: bool) -> Seq<char> {
    if is_logged_in {
        Seq::<char>::empty()
    } else {
        "<section class=\"banner\" role=\"alert\"><h4>Sign in required</h4><p>You must be signed in to perform this action.</p>"@
            + link_button_chars("/auth"@, "Sign in"@) + "</section>"@
    }
}

/// Renders the sign-in prompt for visitors who are not signed in.
pub fn SessionRequiredBanner(is_logged_in: bool) -> (r: String)
    ensures
        r@ == session_banner_chars(is_logged_in),
{
    if is_logged_in {
        let out = String::new();
        return out;
    }
    let mut out = String::new();
    out.append(
        "<section class=\"banner\" role=\"alert\"><h4>Sign in required</h4><p>You must be signed in to perform this action.</p>",
    );
    let button = LinkButton("/auth", "Sign in");
    out.append(button.as_str());
    out.append("</section>");
    proof {
        assert(out@ =~= session_banner_chars(false));
    }
    out
}

/// The toolbar an author sees above their own mod page.
pub open spec fn author_toolbar_chars(slug: Seq<char>, is_published: bool) -> Seq<char> {
    "<div class=\"author-toolbar\"><a href=\"/mod/"@ + slug
        + "?edit\" class=\"font-semibold\">Edit mod</a><button>"@ + (if is_published {
        "Published"@
    } else {
        "Publish"@
    }) + "</button></div>"@
}

/// Renders the author toolbar for a mod page.
pub fn AuthorToolbar(slug: &str, is_published: bool) -> (r: String)
    ensures
        r@ == author_toolbar_chars(slug@, is_published),
{
    let mut out = String::new();
    out.append("<div class=\"author-toolbar\"><a href=\"/mod/");
    out.append(slug);
    out.append("?edit\" class=\"font-semibold\">Edit mod</a><button>");
    if is_published {
        out.append("Published");
    } else {
        out.append("Publish");
    }
    out.append("</button></div>");
    proof {
        assert(out@ =~= author_toolbar_chars(slug@, is_published));
    }
    out
}

/// One card of a mod listing: a link to the mod's page with its name
/// for screen readers.
pub open spec fn mod_card_chars(m: ModSummaryView) -> Seq<char> {
    "<li class=\"mod-card\"><a href=\"/mod/"@ + m.slug + "\"><span class=\"sr-only\">"@ + m.name
        + "</span></a></li>"@
}

/// The cards of a mod listing, in order.
pub open spec fn mod_cards_chars(mods: Seq<ModSummaryView>) -> Seq<char>
    decreases mods.len(),
{
    if mods.len() == 0 {
        Seq::empty()
    } else {
        mod_cards_chars(mods.drop_last()) + mod_card_chars(mods.last())
    }
}

/// Renders the cards of a mod listing.
fn mod_cards(mods: &Vec<ModSummary>) -> (r: String)
    ensures
        r@ == mod_cards_chars(mods.deep_view()),
{
    let ghost views = mods.deep_view();
    let mut out = String::new();
    let mut k: usize = 0;
    while k < mods.len()
        invariant
            mods.deep_view() == views,
            views.len() == mods@.len(),
            k <= mods@.len(),
            out@ == mod_cards_chars(views.subrange(0, k as int)),
        decreases mods@.len() - k,
    {
        out.append("<li class=\"mod-card\"><a href=\"/mod/");
        out.append(mods[k].slug.as_str());
        out.append("\"><span class=\"sr-only\">");
        out.append(mods[k].name.as_str());
        out.append("</span></a></li>");
        proof {
            assert(views.subrange(0, k + 1).drop_last() =~= views.subrange(0, k as int));
            assert(views.subrange(0, k + 1).last() == views[k as int]);
            assert(out@ =~= mod_cards_chars(views.subrange(0, k + 1)));
        }
        k = k + 1;
    }
    proof {
        assert(views.subrange(0, views.len() as int) =~= views);
    }
    out
}

/// The shop page: every published mod, newest first, inside the shell.
pub open spec fn shop_page_chars(username: Option<Seq<char>>, mods: Seq<ModSummaryView>) -> Seq<
    char,
> {
    shell_chars(
        username,
        "<div class=\"listing\"><ul class=\"mod-grid\">"@ + mod_cards_chars(mods) + "</ul></div>"@,
    )
}

/// Renders the shop page for the given published mods.
pub fn ShopPage(username: Option<&String>, mods: &Vec<ModSummary>) -> (r: String)
    ensures
        r@ == shop_page_chars(
            match username {
                Some(n) => Some(n@),
                None => None,
            },
            mods.deep_view(),
        ),
{
    let mut body = String::new();
    body.append("<div class=\"listing\"><ul class=\"mod-grid\">");
    let cards = mod_cards(mods);
    body.append(cards.as_str());
    body.append("</ul></div>");
    let r = Shell(username, body.as_str());
    proof {
        assert(body@ =~= "<div class=\"listing\"><ul class=\"mod-grid\">"@ + mod_cards_chars(
            mods.deep_view(),
        ) + "</ul></div>"@);
    }
    r
}

/// The creator dashboard body: a link to the docs and, for a signed-in
/// user, their own mods and a button to start a new one.
pub open spec fn dashboard_chars(
    username: Option<Seq<char>>,
    mods: Option<Seq<ModSummaryView>>,
) -> Seq<char> {
    shell_chars(
        username,
        "<div class=\"dashboard\"><a href=\"https://docs.starhaven.dev/\">Learn to create mods</a>"@
            + (match mods {
            Some(ms) => "<h3>Your mods</h3><ul class=\"mod-grid\">"@ + mod_cards_chars(ms)
                + "</ul>"@ + link_button_chars("/create/new"@, "Create a new mod"@),
            None => Seq::<char>::empty(),
        }) + "</div>"@,
    )
}

/// Renders the creator dashboard; `mods` is the signed-in user's own
/// mods, or nothing for a signed-out visitor.
pub fn DashboardPage(username: Option<&String>, mods: Option<&Vec<ModSummary>>) -> (r: String)
    ensures
        r@ == dashboard_chars(
            match username {
                Some(n) => Some(n@),
                None => None,
            },
            match mods {
                Some(ms) => Some(ms.deep_view()),
                None => None,
            },
        ),
{
    let mut body = String::new();
    body.append("<div class=\"dashboard\"><a href=\"https://docs.starhaven.dev/\">Learn to create mods</a>");
    match mods {
        Some(ms) => {
            body.append("<h3>Your mods</h3><ul class=\"mod-grid\">");
            let cards = mod_cards(ms);
            body.append(cards.as_str());
            body.append("</ul>");
            let button = LinkButton("/create/new", "Create a new mod");
            body.append(button.as_str());
        },
        None => {
            proof {
                reveal_strlit("");
            }
        },
    }
    body.append("</div>");
    let r = Shell(username, body.as_str());
    proof {
        reveal_strlit("");
        assert(body@ =~= "<div class=\"dashboard\"><a href=\"https://docs.starhaven.dev/\">Learn to create mods</a>"@
            + (match mods {
            Some(ms) => "<h3>Your mods</h3><ul class=\"mod-grid\">"@ + mod_cards_chars(
                ms.deep_view(),
            ) + "</ul>"@ + link_button_chars("/create/new"@, "Create a new mod"@),
            None => Seq::<char>::empty(),
        }) + "</div>"@);
    }
    r
}

} // verus!
