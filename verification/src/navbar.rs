//! The navigation bar: one link for each page of the site.

use vstd::prelude::*;
use vstd::string::*;

verus! {

/// Opens the navigation bar.
pub const NAVBAR_OPEN: &'static str = "<div class=\"navbar\">";

/// Closes the navigation bar.
pub const NAVBAR_CLOSE: &'static str = "</div>";

/// Opens the element of one link, up to its address.
pub const LINK_OPEN: &'static str = "<div class=\"navbar-elem\"><a class=\"navbar-elem\" href=\"";

/// Stands between a link's address and its name.
pub const LINK_BEFORE_NAME: &'static str = "\">";

/// Closes the element of one link.
pub const LINK_CLOSE: &'static str = "</a></div>\n";

/// The pages of the site, each with its name and its address, in the order in
/// which the bar shows them.
pub open spec fn pages() -> Seq<(Seq<char>, Seq<char>)> {
    seq![
        ("home"@, "/"@),
        ("projects"@, "/projects"@),
        ("dogs"@, "/dogs"@),
        ("interests"@, "/interests"@),
    ]
}

/// The element of the link called `name` that leads to `route`.
pub open spec fn link_markup(name: Seq<char>, route: Seq<char>) -> Seq<char> {
    LINK_OPEN@ + route + LINK_BEFORE_NAME@ + name + LINK_CLOSE@
}

/// One link per page, in the order given.
pub open spec fn links_markup(pages: Seq<(Seq<char>, Seq<char>)>) -> Seq<char>
    decreases pages.len(),
{
    if pages.len() == 0 {
        Seq::empty()
    } else {
        links_markup(pages.drop_last()) + link_markup(pages.last().0, pages.last().1)
    }
}

/// The navigation bar of the site.
pub open spec fn navbar_markup() -> Seq<char> {
    NAVBAR_OPEN@ + links_markup(pages()) + NAVBAR_CLOSE@
}

/// The names and addresses that a list of pages holds.
pub open spec fn page_texts(pages: Seq<(&'static str, &'static str)>) -> Seq<
    (Seq<char>, Seq<char>),
> {
    pages.map_values(|page: (&'static str, &'static str)| (page.0@, page.1@))
}

/// The pages of the site, each with its name and its address.
pub fn route_names() -> (routes: Vec<(&'static str, &'static str)>)
    ensures
        page_texts(routes@) == pages(),
{
    let routes = vec![("home", "/"), ("projects", "/projects"), ("dogs", "/dogs"), ("interests", "/interests")];
    assert(page_texts(routes@) =~= pages());
    routes
}

/// The navigation bar of the site as markup.
pub fn navbar_html() -> (html: String)
    ensures
        html@ == navbar_markup(),
{
    let routes = route_names();
    let mut html = String::from_str(NAVBAR_OPEN);
    let mut done: usize = 0;
    while done < routes.len()
        invariant
            done <= routes.len(),
            html@ == NAVBAR_OPEN@ + links_markup(page_texts(routes@).subrange(0, done as int)),
        decreases routes.len() - done,
    {
        let ghost before = page_texts(routes@).subrange(0, done as int);
        let ghost after = page_texts(routes@).subrange(0, done + 1);
        let (name, route) = routes[done];
        html.append(LINK_OPEN);
        html.append(route);
        html.append(LINK_BEFORE_NAME);
        html.append(name);
        html.append(LINK_CLOSE);
        assert(after.drop_last() =~= before);
        assert(after.last() == (name@, route@));
        assert(html@ =~= NAVBAR_OPEN@ + links_markup(after));
        done = done + 1;
    }
    assert(page_texts(routes@).subrange(0, done as int) =~= page_texts(routes@));
    html.append(NAVBAR_CLOSE);
    html
}

} // verus!
