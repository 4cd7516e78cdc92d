use vstd::prelude::*;

use crate::text::str_eq;

verus! {

/// One of the fixed logical pages, each served at exactly one route.
#[derive(Clone, Copy, Debug, PartialEq, Eq, Structural)]
pub enum LogicalPage {
    Index,
    Home,
    Services,
    Contact,
    AboutUs,
}

/// The route at which a page is served.
pub open spec fn route_of(p: LogicalPage) -> Seq<char> {
    match p {
        LogicalPage::Index => "/"@,
        LogicalPage::Home => "/index"@,
        LogicalPage::Services => "/services"@,
        LogicalPage::Contact => "/contact-us"@,
        LogicalPage::AboutUs => "/about-us"@,
    }
}

/// The file of a page, relative to a content root.
pub open spec fn file_of(p: LogicalPage) -> Seq<char> {
    match p {
        LogicalPage::Index => "index.html"@,
        LogicalPage::Home => "pages/home.html"@,
        LogicalPage::Services => "pages/services.html"@,
        LogicalPage::Contact => "pages/contact-us.html"@,
        LogicalPage::AboutUs => "pages/about-us.html"@,
    }
}

/// The page served at `path`, if any: the route table is closed.
pub open spec fn page_at(path: Seq<char>) -> Option<LogicalPage> {
    if path == route_of(LogicalPage::Index) {
        Some(LogicalPage::Index)
    } else if path == route_of(LogicalPage::Home) {
        Some(LogicalPage::Home)
    } else if path == route_of(LogicalPage::Services) {
        Some(LogicalPage::Services)
    } else if path == route_of(LogicalPage::Contact) {
        Some(LogicalPage::Contact)
    } else if path == route_of(LogicalPage::AboutUs) {
        Some(LogicalPage::AboutUs)
    } else {
        None
    }
}

impl LogicalPage {
    /// Every logical page, in the order of the route table.
    pub fn all() -> (r: Vec<LogicalPage>)
        ensures
            r@ == seq![
                LogicalPage::Index,
                LogicalPage::Home,
                LogicalPage::Services,
                LogicalPage::Contact,
                LogicalPage::AboutUs,
            ],
    {
        let r = vec![
            LogicalPage::Index,
            LogicalPage::Home,
            LogicalPage::Services,
            LogicalPage::Contact,
            LogicalPage::AboutUs,
        ];
        assert(r@ =~= seq![
            LogicalPage::Index,
            LogicalPage::Home,
            LogicalPage::Services,
            LogicalPage::Contact,
            LogicalPage::AboutUs,
        ]);
        r
    }

    pub fn route(self) -> (r: &'static str)
        ensures
            r@ == route_of(self),
    {
        match self {
            LogicalPage::Index => "/",
            LogicalPage::Home => "/index",
            LogicalPage::Services => "/services",
            LogicalPage::Contact => "/contact-us",
            LogicalPage::AboutUs => "/about-us",
        }
    }

    pub fn relative_path(self) -> (r: &'static str)
        ensures
            r@ == file_of(self),
    {
        match self {
            LogicalPage::Index => "index.html",
            LogicalPage::Home => "pages/home.html",
            LogicalPage::Services => "pages/services.html",
            LogicalPage::Contact => "pages/contact-us.html",
            LogicalPage::AboutUs => "pages/about-us.html",
        }
    }

    /// Looks up the page whose route is exactly `path`.
    pub fn for_route(path: &str) -> (r: Option<LogicalPage>)
        ensures
            r == page_at(path@),
    {
        let pages = LogicalPage::all();
        let mut i: usize = 0;
        while i < pages.len()
            invariant
                pages@ == seq![
                    LogicalPage::Index,
                    LogicalPage::Home,
                    LogicalPage::Services,
                    LogicalPage::Contact,
                    LogicalPage::AboutUs,
                ],
                i <= pages@.len(),
                forall|j: int| 0 <= j < i ==> path@ != route_of(#[trigger] pages@[j]),
            decreases pages.len() - i,
        {
            let p = pages[i];
            if str_eq(path, p.route()) {
                return Some(p);
            }
            i = i + 1;
        }
        assert(path@ != route_of(pages@[0]));
        assert(path@ != route_of(pages@[1]));
        assert(path@ != route_of(pages@[2]));
        assert(path@ != route_of(pages@[3]));
        assert(path@ != route_of(pages@[4]));
        None
    }
}

} // verus!
