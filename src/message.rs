//! Bulletin-board posts and the board's request routing.
use vstd::prelude::*;
use crate::text::str_eq;

verus! {

/// One post: who wrote it, what it says, and when it was posted, once the
/// board has stamped it.
pub struct Message {
    pub user: String,
    pub text: String,
    pub date: Option<String>,
}

impl Message {
    /// A post not yet stamped with a date.
    pub fn new(user: String, text: String) -> (r: Message)
        ensures
            r.user@ == user@,
            r.text@ == text@,
            r.date is None,
    {
        Message { text: text, user: user, date: None }
    }
}

/// The HTML article that shows a post with the given text, author and date.
pub open spec fn article(text: Seq<char>, user: Seq<char>, date: Seq<char>) -> Seq<char> {
    "\n<article class=\"POST\">\n  <header>\n    <h2>"@ + text
        + "</h2>\n  </header>\n  <p>\n    Posted on <time datetime=\""@ + date + "\">"@ + date
        + "</time> by <b>"@ + user + "</b>.\n  </p>\n</article>"@
}

impl Message {
    /// The post as an HTML article; a post without a date shows an empty one.
    pub fn to_html(&self) -> (r: String)
        ensures
            r@ == article(
                self.text@,
                self.user@,
                match self.date {
                    Some(d) => d@,
                    None => Seq::empty(),
                },
            ),
    {
        let empty = String::new();
        let date: &String = match &self.date {
            Some(d) => d,
            None => &empty,
        };
        let mut out = String::new();
        out.append("\n<article class=\"POST\">\n  <header>\n    <h2>");
        out.append(self.text.as_str());
        out.append("</h2>\n  </header>\n  <p>\n    Posted on <time datetime=\"");
        out.append(date.as_str());
        out.append("\">");
        out.append(date.as_str());
        out.append("</time> by <b>");
        out.append(self.user.as_str());
        out.append("</b>.\n  </p>\n</article>");
        assert(Seq::<char>::empty() + "\n<article class=\"POST\">\n  <header>\n    <h2>"@
            =~= "\n<article class=\"POST\">\n  <header>\n    <h2>"@);
        out
    }
}

/// What the board does with a request.
#[derive(PartialEq, Eq, Structural, Debug, Clone, Copy)]
pub enum Route {
    /// Send the stored posts as JSON lines.
    Json,
    /// Send the page with every post rendered.
    Page,
    /// Store the posted message.
    Store,
    /// Answer that there is nothing here.
    NotFound,
}

/// The route for a request with HTTP method `method` on path `path`.
pub open spec fn route_of(method: Seq<char>, path: Seq<char>) -> Route {
    if method == "GET"@ && path == "/json"@ {
        Route::Json
    } else if method == "GET"@ {
        Route::Page
    } else if method == "POST"@ {
        Route::Store
    } else {
        Route::NotFound
    }
}

/// Picks the route for a request.
pub fn route(method: &str, path: &str) -> (r: Route)
    ensures
        r == route_of(method@, path@),
{
    if str_eq(method, "GET") {
        if str_eq(path, "/json") {
            Route::Json
        } else {
            Route::Page
        }
    } else if str_eq(method, "POST") {
        Route::Store
    } else {
        Route::NotFound
    }
}

} // verus!
