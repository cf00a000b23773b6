//! Routing of GET requests: listings, virtual pages, and the static-file authorization and
//! content-type rules.
use vstd::prelude::*;

use crate::bytes::{ascii_bytes, copy_all, has_prefix, has_suffix, lit, same_bytes, starts, ends};
use crate::request::{get_path, is_space, lemma_space_from_bounds, space_from};
use crate::response::Mime;

verus! {

/// The four kinds of upload that can be listed.
#[derive(Clone, Copy, Debug, PartialEq, Eq, Structural)]
pub enum Category {
    Pit,
    Image,
    Match,
    Note,
}

/// Where a GET request is sent.
#[derive(Debug)]
pub enum Route {
    /// A comma-separated listing of the uploads of one category.
    Listing(Category),
    /// The built-in about page.
    About,
    /// The script that carries the configured API key.
    KeyScript,
    /// A file, by its path relative to the served directory.
    Static(Vec<u8>),
}

/// The model of a [`Route`].
pub enum RouteView {
    Listing(Category),
    About,
    KeyScript,
    Static(Seq<u8>),
}

impl View for Route {
    type V = RouteView;

    open spec fn view(&self) -> RouteView {
        match self {
            Route::Listing(c) => RouteView::Listing(*c),
            Route::About => RouteView::About,
            Route::KeyScript => RouteView::KeyScript,
            Route::Static(p) => RouteView::Static(p@),
        }
    }
}

/// The category that a `get...` path lists, if it is one of the four listing endpoints.
pub open spec fn listing_category(path: Seq<u8>) -> Option<Category> {
    if path == ascii_bytes("getPitResultsNames"@) {
        Some(Category::Pit)
    } else if path == ascii_bytes("getImageNames"@) {
        Some(Category::Image)
    } else if path == ascii_bytes("getMatchResultNames"@) {
        Some(Category::Match)
    } else if path == ascii_bytes("getNoteNames"@) {
        Some(Category::Note)
    } else {
        None
    }
}

/// An API key is served only when one is configured, is not empty and is not `none`.
pub open spec fn usable_key(key: Option<Vec<u8>>) -> bool {
    match key {
        Some(k) => k@.len() > 0 && k@ != ascii_bytes("none"@),
        None => false,
    }
}

/// Where the path of a GET request (without its leading `/` and query) is sent.
pub open spec fn route_of(path: Seq<u8>, key_usable: bool) -> RouteView {
    if path.len() == 0 || path[0] == 63 {
        RouteView::Static(ascii_bytes("index.html"@))
    } else if starts(path, ascii_bytes("get"@)) {
        match listing_category(path) {
            Some(c) => RouteView::Listing(c),
            None => RouteView::Static(path),
        }
    } else if path == ascii_bytes("about"@) {
        RouteView::About
    } else if path == ascii_bytes("scripts/keys.js"@) && key_usable {
        RouteView::KeyScript
    } else {
        RouteView::Static(path)
    }
}

/// A GET of `/`, or of `/?` with any query after it, is answered with `index.html`.
pub proof fn lemma_root_serves_index(buf: Seq<u8>, key_usable: bool)
    requires
        starts(buf, ascii_bytes("GET /"@)),
        buf.len() == 5 || is_space(buf[5]) || buf[5] == 63,
    ensures
        route_of(get_path(buf), key_usable) == RouteView::Static(ascii_bytes("index.html"@)),
{
    reveal_strlit("GET /");
    assert(buf.len() >= 5);
    lemma_space_from_bounds(buf, 5);
    let e = space_from(buf, 5);
    let t = buf.subrange(5, e);
    if buf.len() == 5 || is_space(buf[5]) {
        assert(e == 5);
        assert(get_path(buf) =~= Seq::<u8>::empty());
    } else {
        lemma_space_from_bounds(buf, 6);
        assert(e >= 6);
        assert(t[0] == 63);
        assert(crate::bytes::index_of_from(t, 63, 0) == 0);
        assert(get_path(buf) =~= Seq::<u8>::empty());
    }
}

/// Whether the key is one that the key script may carry.
pub fn key_is_usable(key: &Option<Vec<u8>>) -> (r: bool)
    ensures
        r == usable_key(*key),
{
    match key {
        Some(k) => {
            let none = {
                proof {
                    reveal_strlit("none");
                }
                lit("none")
            };
            k.len() > 0 && !same_bytes(k.as_slice(), none.as_slice())
        },
        None => false,
    }
}

fn equals_lit(path: &[u8], s: &str) -> (r: bool)
    requires
        vstd::string::is_ascii(s),
    ensures
        r == (path@ == ascii_bytes(s@)),
{
    let v = lit(s);
    same_bytes(path, v.as_slice())
}

/// The category that a `get...` path lists, if any.
pub fn listing_for(path: &[u8]) -> (r: Option<Category>)
    ensures
        r == listing_category(path@),
{
    proof {
        reveal_strlit("getPitResultsNames");
        reveal_strlit("getImageNames");
        reveal_strlit("getMatchResultNames");
        reveal_strlit("getNoteNames");
    }
    if equals_lit(path, "getPitResultsNames") {
        Some(Category::Pit)
    } else if equals_lit(path, "getImageNames") {
        Some(Category::Image)
    } else if equals_lit(path, "getMatchResultNames") {
        Some(Category::Match)
    } else if equals_lit(path, "getNoteNames") {
        Some(Category::Note)
    } else {
        None
    }
}

/// Routes the path of a GET request; `key` is the configured API key, if any.
pub fn route_get(path: &[u8], key: &Option<Vec<u8>>) -> (r: Route)
    ensures
        r@ == route_of(path@, usable_key(*key)),
{
    proof {
        reveal_strlit("index.html");
        reveal_strlit("get");
        reveal_strlit("about");
        reveal_strlit("scripts/keys.js");
    }
    if path.len() == 0 || path[0] == 63 {
        return Route::Static(lit("index.html"));
    }
    let get = lit("get");
    if has_prefix(path, get.as_slice()) {
        return match listing_for(path) {
            Some(c) => Route::Listing(c),
            None => Route::Static(copy_all(path)),
        };
    }
    if equals_lit(path, "about") {
        return Route::About;
    }
    if equals_lit(path, "scripts/keys.js") && key_is_usable(key) {
        return Route::KeyScript;
    }
    Route::Static(copy_all(path))
}

/// The path begins with one of the prefixes that may be served.
pub open spec fn allowed(path: Seq<u8>) -> bool {
    starts(path, ascii_bytes("config"@)) || starts(path, ascii_bytes("scripts"@)) || starts(
        path,
        ascii_bytes("styles"@),
    ) || starts(path, ascii_bytes("uploads"@)) || starts(path, ascii_bytes("favicon.ico"@))
        || starts(path, ascii_bytes("index.html"@)) || starts(path, ascii_bytes("selection.html"@))
        || starts(path, ascii_bytes("?"@))
}

/// The content type of a file, chosen by the last three bytes of its path.
pub open spec fn mime_of(path: Seq<u8>) -> Mime {
    if ends(path, ascii_bytes("ico"@)) {
        Mime::Icon
    } else if ends(path, ascii_bytes("jpg"@)) {
        Mime::Jpeg
    } else if ends(path, ascii_bytes("png"@)) {
        Mime::Png
    } else if ends(path, ascii_bytes("svg"@)) {
        Mime::Svg
    } else if ends(path, ascii_bytes("tml"@)) {
        Mime::Html
    } else if ends(path, ascii_bytes("css"@)) {
        Mime::Css
    } else if ends(path, ascii_bytes(".js"@)) {
        Mime::Javascript
    } else {
        Mime::Plain
    }
}

proof fn lemma_last_three(stem: Seq<u8>, e: Seq<u8>, x: Seq<u8>)
    requires
        e.len() >= 3,
        x.len() == 3,
    ensures
        ends(stem + e, x) == (e.subrange(e.len() - 3, e.len() as int) == x),
{
    let s = stem + e;
    assert(s.subrange(s.len() - 3, s.len() as int) =~= e.subrange(e.len() - 3, e.len() as int));
}

/// Content types by file name: whatever precedes it, a name ending in `.ico`, `.jpg`, `.png`,
/// `.svg`, `.html` (or `.xhtml`), `.css` or `.js` gets its type; one ending in `.json`, or in
/// `son` alone, and one ending in anything else is plain text.
pub proof fn lemma_mime_by_extension(stem: Seq<u8>, other: Seq<u8>)
    requires
        other.len() >= 3,
        !(ends(other, ascii_bytes("ico"@)) || ends(other, ascii_bytes("jpg"@)) || ends(
            other,
            ascii_bytes("png"@),
        ) || ends(other, ascii_bytes("svg"@)) || ends(other, ascii_bytes("tml"@)) || ends(
            other,
            ascii_bytes("css"@),
        ) || ends(other, ascii_bytes(".js"@))),
    ensures
        mime_of(stem + ascii_bytes(".ico"@)) == Mime::Icon,
        mime_of(stem + ascii_bytes(".jpg"@)) == Mime::Jpeg,
        mime_of(stem + ascii_bytes(".png"@)) == Mime::Png,
        mime_of(stem + ascii_bytes(".svg"@)) == Mime::Svg,
        mime_of(stem + ascii_bytes(".html"@)) == Mime::Html,
        mime_of(stem + ascii_bytes(".xhtml"@)) == Mime::Html,
        mime_of(stem + ascii_bytes(".css"@)) == Mime::Css,
        mime_of(stem + ascii_bytes(".js"@)) == Mime::Javascript,
        mime_of(stem + ascii_bytes(".json"@)) == Mime::Plain,
        mime_of(stem + ascii_bytes("son"@)) == Mime::Plain,
        mime_of(stem + other) == Mime::Plain,
{
    reveal_strlit("ico");
    reveal_strlit("jpg");
    reveal_strlit("png");
    reveal_strlit("svg");
    reveal_strlit("tml");
    reveal_strlit("css");
    reveal_strlit(".js");
    reveal_strlit(".ico");
    reveal_strlit(".jpg");
    reveal_strlit(".png");
    reveal_strlit(".svg");
    reveal_strlit(".html");
    reveal_strlit(".xhtml");
    reveal_strlit(".css");
    reveal_strlit(".json");
    reveal_strlit("son");
    let sufs = seq![
        ascii_bytes("ico"@),
        ascii_bytes("jpg"@),
        ascii_bytes("png"@),
        ascii_bytes("svg"@),
        ascii_bytes("tml"@),
        ascii_bytes("css"@),
        ascii_bytes(".js"@),
    ];
    let exts = seq![
        ascii_bytes(".ico"@),
        ascii_bytes(".jpg"@),
        ascii_bytes(".png"@),
        ascii_bytes(".svg"@),
        ascii_bytes(".html"@),
        ascii_bytes(".xhtml"@),
        ascii_bytes(".css"@),
        ascii_bytes(".js"@),
        ascii_bytes(".json"@),
        ascii_bytes("son"@),
        other,
    ];
    assert forall|i: int, j: int| 0 <= i < exts.len() && 0 <= j < sufs.len() implies #[trigger] ends(
        stem + exts[i],
        sufs[j],
    ) == ends(exts[i], sufs[j]) by {
        lemma_last_three(stem, exts[i], sufs[j]);
    }
    assert(exts[0].subrange(1, 4) =~= sufs[0]);
    assert(exts[1].subrange(1, 4) =~= sufs[1]);
    assert(exts[2].subrange(1, 4) =~= sufs[2]);
    assert(exts[3].subrange(1, 4) =~= sufs[3]);
    assert(exts[4].subrange(2, 5) =~= sufs[4]);
    assert(exts[5].subrange(3, 6) =~= sufs[4]);
    assert(exts[6].subrange(1, 4) =~= sufs[5]);
    assert(exts[7].subrange(0, 3) =~= sufs[6]);
    assert forall|i: int, j: int| 0 <= i < exts.len() && 0 <= j < sufs.len() implies #[trigger] ends(
        exts[i],
        sufs[j],
    ) == (exts[i].subrange(exts[i].len() - 3, exts[i].len() as int) == sufs[j]) by {}
    assert forall|j: int, k: int| 0 <= j < 7 && 0 <= k < 7 && j != k implies sufs[j] != sufs[k] by {
        assert(sufs[j][0] != sufs[k][0]);
    }
    let son = ascii_bytes("son"@);
    assert(exts[8].subrange(2, 5) =~= son);
    assert(exts[9].subrange(0, 3) =~= son);
    assert forall|j: int| 0 <= j < 7 implies son != sufs[j] by {
        if son[0] == sufs[j][0] {
            assert(son[1] != sufs[j][1]);
        }
    }
    assert(mime_of(stem + exts[0]) == Mime::Icon);
    assert(mime_of(stem + exts[1]) == Mime::Jpeg);
    assert(mime_of(stem + exts[2]) == Mime::Png);
    assert(mime_of(stem + exts[3]) == Mime::Svg);
    assert(mime_of(stem + exts[4]) == Mime::Html);
    assert(mime_of(stem + exts[5]) == Mime::Html);
    assert(mime_of(stem + exts[6]) == Mime::Css);
    assert(mime_of(stem + exts[7]) == Mime::Javascript);
    assert(mime_of(stem + exts[8]) == Mime::Plain);
    assert(mime_of(stem + exts[9]) == Mime::Plain);
    assert(mime_of(stem + exts[10]) == Mime::Plain);
}

/// What becomes of a request for a file.
#[derive(Clone, Copy, Debug, PartialEq, Eq, Structural)]
pub enum Served {
    NotFound,
    Unauthorized,
    File(Mime),
}

/// A missing file is not found; an existing one outside the allowed prefixes is refused;
/// any other is sent with the type its path gives.
pub open spec fn served_of(path: Seq<u8>, exists: bool) -> Served {
    if !exists {
        Served::NotFound
    } else if !allowed(path) {
        Served::Unauthorized
    } else {
        Served::File(mime_of(path))
    }
}

fn starts_lit(path: &[u8], s: &str) -> (r: bool)
    requires
        vstd::string::is_ascii(s),
    ensures
        r == starts(path@, ascii_bytes(s@)),
{
    let v = lit(s);
    has_prefix(path, v.as_slice())
}

fn ends_lit(path: &[u8], s: &str) -> (r: bool)
    requires
        vstd::string::is_ascii(s),
    ensures
        r == ends(path@, ascii_bytes(s@)),
{
    let v = lit(s);
    has_suffix(path, v.as_slice())
}

/// Whether the path may be served.
pub fn is_allowed(path: &[u8]) -> (r: bool)
    ensures
        r == allowed(path@),
{
    proof {
        reveal_strlit("config");
        reveal_strlit("scripts");
        reveal_strlit("styles");
        reveal_strlit("uploads");
        reveal_strlit("favicon.ico");
        reveal_strlit("index.html");
        reveal_strlit("selection.html");
        reveal_strlit("?");
    }
    starts_lit(path, "config") || starts_lit(path, "scripts") || starts_lit(path, "styles")
        || starts_lit(path, "uploads") || starts_lit(path, "favicon.ico") || starts_lit(
        path,
        "index.html",
    ) || starts_lit(path, "selection.html") || starts_lit(path, "?")
}

/// The content type of a file, by the last three bytes of its path.
pub fn mime_for(path: &[u8]) -> (r: Mime)
    ensures
        r == mime_of(path@),
{
    proof {
        reveal_strlit("ico");
        reveal_strlit("jpg");
        reveal_strlit("png");
        reveal_strlit("svg");
        reveal_strlit("tml");
        reveal_strlit("css");
        reveal_strlit(".js");
    }
    if ends_lit(path, "ico") {
        Mime::Icon
    } else if ends_lit(path, "jpg") {
        Mime::Jpeg
    } else if ends_lit(path, "png") {
        Mime::Png
    } else if ends_lit(path, "svg") {
        Mime::Svg
    } else if ends_lit(path, "tml") {
        Mime::Html
    } else if ends_lit(path, "css") {
        Mime::Css
    } else if ends_lit(path, ".js") {
        Mime::Javascript
    } else {
        Mime::Plain
    }
}

/// Decides how a request for the file at `path` is answered, given whether it exists.
pub fn serve_decision(path: &[u8], exists: bool) -> (r: Served)
    ensures
        r == served_of(path@, exists),
{
    if !exists {
        Served::NotFound
    } else if !is_allowed(path) {
        Served::Unauthorized
    } else {
        Served::File(mime_for(path))
    }
}

} // verus!
