use vstd::prelude::*;

verus! {

/// The outcome of probing one relative path under each content root, in
/// root order: `Some(text)` where the file exists and could be read, `None`
/// where it is missing or unreadable (the two are not told apart).
pub open spec fn first_found(probes: Seq<Option<Seq<char>>>) -> Option<Seq<char>>
    decreases probes.len(),
{
    if probes.len() == 0 {
        None
    } else {
        match probes[0] {
            Some(text) => Some(text),
            None => first_found(probes.drop_first()),
        }
    }
}

/// The relative path of the custom not-found page under each root.
pub open spec fn not_found_file() -> Seq<char> {
    "pages/404.html"@
}

/// The path of the custom not-found page under each content root.
pub fn not_found_page_path() -> (r: &'static str)
    ensures
        r@ == not_found_file(),
{
    "pages/404.html"
}

/// The body served when no root holds a readable custom not-found page.
pub open spec fn fallback_body() -> Seq<char> {
    "Page not found"@
}

/// The not-found body: the first readable custom page, else the fallback.
pub open spec fn not_found_body_of(probes: Seq<Option<Seq<char>>>) -> Seq<char> {
    match first_found(probes) {
        Some(text) => text,
        None => fallback_body(),
    }
}

pub const STATUS_OK: u16 = 200;

pub const STATUS_NOT_FOUND: u16 = 404;

/// An HTML response: a status code and the body served as-is.
pub struct Response {
    pub status: u16,
    pub body: String,
}

/// The response to a logical page: its first readable file with status 200,
/// else the not-found response.
pub open spec fn page_response_of(
    page: Seq<Option<Seq<char>>>,
    not_found: Seq<Option<Seq<char>>>,
) -> (u16, Seq<char>) {
    match first_found(page) {
        Some(text) => (STATUS_OK, text),
        None => (STATUS_NOT_FOUND, not_found_body_of(not_found)),
    }
}

/// The single domain error: the requested content is in no root.
#[derive(Clone, Copy, Debug, PartialEq, Eq, Structural)]
pub enum AppError {
    NotFound,
}

impl AppError {
    /// The response of an error that reaches the client without a custom page.
    pub fn into_response(self) -> (r: Response)
        ensures
            r.status == STATUS_NOT_FOUND,
            r.body@ == fallback_body(),
    {
        match self {
            AppError::NotFound => Response {
                status: STATUS_NOT_FOUND,
                body: String::from_str("Page not found"),
            },
        }
    }
}

/// Resolves a relative path from the probes of each root: the first root
/// whose file could be read wins; a root whose file is missing or unreadable
/// is skipped, and later roots are still tried.
pub fn resolve(probes: &Vec<Option<String>>) -> (r: Result<String, AppError>)
    ensures
        match first_found(probes.deep_view()) {
            Some(text) => r is Ok && r->Ok_0@ == text,
            None => r == Err::<String, AppError>(AppError::NotFound),
        },
{
    let ghost all = probes.deep_view();
    let mut i: usize = 0;
    assert(all.subrange(0, all.len() as int) =~= all);
    while i < probes.len()
        invariant
            all == probes.deep_view(),
            i <= probes.len(),
            first_found(all) == first_found(all.subrange(i as int, all.len() as int)),
        decreases probes.len() - i,
    {
        proof {
            let rest = all.subrange(i as int, all.len() as int);
            assert(rest.drop_first() =~= all.subrange(i + 1, all.len() as int));
            assert(rest[0] == all[i as int]);
        }
        match &probes[i] {
            Some(text) => {
                return Ok(text.clone());
            },
            None => {},
        }
        i = i + 1;
    }
    Err(AppError::NotFound)
}

/// The body of the not-found response, from the probes of `pages/404.html`
/// under each root; there is always a body.
pub fn not_found_body(probes: &Vec<Option<String>>) -> (r: String)
    ensures
        r@ == not_found_body_of(probes.deep_view()),
{
    match resolve(probes) {
        Ok(text) => text,
        Err(e) => e.into_response().body,
    }
}

/// The not-found response, served for unrouted paths and for logical pages
/// that no root holds.
pub fn not_found_response(probes: &Vec<Option<String>>) -> (r: Response)
    ensures
        r.status == STATUS_NOT_FOUND,
        r.body@ == not_found_body_of(probes.deep_view()),
{
    Response { status: STATUS_NOT_FOUND, body: not_found_body(probes) }
}

/// The response to a logical page, given the probes of its file and those of
/// the custom not-found page.
pub fn page_response(page: &Vec<Option<String>>, not_found: &Vec<Option<String>>) -> (r: Response)
    ensures
        (r.status, r.body@) == page_response_of(page.deep_view(), not_found.deep_view()),
{
    match resolve(page) {
        Ok(text) => Response { status: STATUS_OK, body: text },
        Err(_) => not_found_response(not_found),
    }
}

} // verus!
