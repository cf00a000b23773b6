//! The complete responses the server sends: status pages, the about page, the key script and
//! upload listings.
use vstd::prelude::*;

use crate::bytes::{ascii_bytes, index_of_from, lemma_index_first, lit, push_all};
use crate::response::{bytes_response, mime_text, response_bytes, status_text, Mime, Status};
use crate::router::Category;

verus! {

/// The HTML body that comes with a status: an acknowledgement for success, an error page
/// otherwise.
pub open spec fn status_body(s: Status) -> Seq<u8> {
    match s {
        Status::Success => ascii_bytes("<h1>Got POST</h1>"@),
        Status::BadRequest => ascii_bytes("<h1>400 - Bad Request!</h1>"@),
        Status::Unauthorized => ascii_bytes("<h1>401 - Unauthorized!</h1>"@),
        Status::NotFound => ascii_bytes("<h1>404 - Page Not Found!</h1>"@),
    }
}

/// The HTML response for a status: the upload acknowledgement, or an error page.
pub fn status_page(s: Status) -> (r: Vec<u8>)
    ensures
        r@ == response_bytes(status_text(s), mime_text(Mime::Html), status_body(s)),
{
    proof {
        reveal_strlit("<h1>Got POST</h1>");
        reveal_strlit("<h1>400 - Bad Request!</h1>");
        reveal_strlit("<h1>401 - Unauthorized!</h1>");
        reveal_strlit("<h1>404 - Page Not Found!</h1>");
    }
    let body = match s {
        Status::Success => lit("<h1>Got POST</h1>"),
        Status::BadRequest => lit("<h1>400 - Bad Request!</h1>"),
        Status::Unauthorized => lit("<h1>401 - Unauthorized!</h1>"),
        Status::NotFound => lit("<h1>404 - Page Not Found!</h1>"),
    };
    bytes_response(s, Mime::Html, body.as_slice())
}

/// The body of the about page.
pub open spec fn about_body() -> Seq<u8> {
    ascii_bytes(
        "<!DOCTYPE html><html lang=\"en\"><head><meta charset=\"utf-8\"/><title>LiamRank</title></head><body><h1>Liam Rank</h1>post-server.py Python3 POST server<br>2020 Liam Fruzyna<br><a href=\"https://github.com/mail929/LiamRank\">MPL Licensed on GitHub</a></body></html>"@,
    )
}

/// The built-in about page.
pub fn about_response() -> (r: Vec<u8>)
    ensures
        r@ == response_bytes(status_text(Status::Success), mime_text(Mime::Html), about_body()),
{
    proof {
        reveal_strlit(
            "<!DOCTYPE html><html lang=\"en\"><head><meta charset=\"utf-8\"/><title>LiamRank</title></head><body><h1>Liam Rank</h1>post-server.py Python3 POST server<br>2020 Liam Fruzyna<br><a href=\"https://github.com/mail929/LiamRank\">MPL Licensed on GitHub</a></body></html>",
        );
    }
    let body = lit(
        "<!DOCTYPE html><html lang=\"en\"><head><meta charset=\"utf-8\"/><title>LiamRank</title></head><body><h1>Liam Rank</h1>post-server.py Python3 POST server<br>2020 Liam Fruzyna<br><a href=\"https://github.com/mail929/LiamRank\">MPL Licensed on GitHub</a></body></html>",
    );
    bytes_response(Status::Success, Mime::Html, body.as_slice())
}

/// The script that hands the API key to the pages: `API_KEY="<key>"`.
pub open spec fn key_script_body(key: Seq<u8>) -> Seq<u8> {
    ascii_bytes("API_KEY=\""@) + key + ascii_bytes("\""@)
}

/// The key script response for the given key.
pub fn key_script_response(key: &[u8]) -> (r: Vec<u8>)
    ensures
        r@ == response_bytes(
            status_text(Status::Success),
            mime_text(Mime::Script),
            key_script_body(key@),
        ),
{
    proof {
        reveal_strlit("API_KEY=\"");
        reveal_strlit("\"");
    }
    let mut body = lit("API_KEY=\"");
    push_all(&mut body, key);
    let q = lit("\"");
    push_all(&mut body, q.as_slice());
    bytes_response(Status::Success, Mime::Script, body.as_slice())
}

/// The file-name prefix of a category.
pub open spec fn category_prefix(c: Category) -> Seq<u8> {
    match c {
        Category::Pit => ascii_bytes("pit"@),
        Category::Image => ascii_bytes("image"@),
        Category::Match => ascii_bytes("match"@),
        Category::Note => ascii_bytes("note"@),
    }
}

/// The file extension of a category: images are PNG, the rest JSON.
pub open spec fn category_ext(c: Category) -> Seq<u8> {
    match c {
        Category::Image => ascii_bytes("png"@),
        _ => ascii_bytes("json"@),
    }
}

/// The glob pattern of the uploads of a category: `uploads/<prefix>-*.<ext>`.
pub open spec fn pattern_of(c: Category) -> Seq<u8> {
    ascii_bytes("uploads/"@) + category_prefix(c) + ascii_bytes("-*."@) + category_ext(c)
}

/// The glob pattern that selects the uploads of a category.
pub fn listing_pattern(c: Category) -> (r: Vec<u8>)
    ensures
        r@ == pattern_of(c),
{
    proof {
        reveal_strlit("uploads/");
        reveal_strlit("pit");
        reveal_strlit("image");
        reveal_strlit("match");
        reveal_strlit("note");
        reveal_strlit("-*.");
        reveal_strlit("png");
        reveal_strlit("json");
    }
    let mut r = lit("uploads/");
    let prefix = match c {
        Category::Pit => lit("pit"),
        Category::Image => lit("image"),
        Category::Match => lit("match"),
        Category::Note => lit("note"),
    };
    push_all(&mut r, prefix.as_slice());
    let dash = lit("-*.");
    push_all(&mut r, dash.as_slice());
    let ext = match c {
        Category::Image => lit("png"),
        _ => lit("json"),
    };
    push_all(&mut r, ext.as_slice());
    r
}

/// The paths that a category's pattern selects: `uploads/<prefix>-<any>.<ext>`, where the
/// part in between holds no `/`.
pub open spec fn selected_by(c: Category, path: Seq<u8>) -> bool {
    exists|mid: Seq<u8>|
        !mid.contains(47u8) && path == ascii_bytes("uploads/"@) + category_prefix(c) + ascii_bytes(
            "-"@,
        ) + mid + ascii_bytes("."@) + category_ext(c)
}

/// An upload named `<prefix>-<rest>` with a JSON payload, `rest` holding no `/`, is stored
/// where the listing of its category finds it.
pub proof fn lemma_upload_selected(c: Category, rest: Seq<u8>)
    requires
        c != Category::Image,
        !rest.contains(47u8),
    ensures
        selected_by(
            c,
            crate::upload::target_of(category_prefix(c) + ascii_bytes("-"@) + rest, false),
        ),
{
    reveal_strlit(".json");
    reveal_strlit(".");
    reveal_strlit("json");
    let path = crate::upload::target_of(category_prefix(c) + ascii_bytes("-"@) + rest, false);
    assert(ascii_bytes(".json"@) =~= ascii_bytes("."@) + ascii_bytes("json"@));
    assert(path =~= ascii_bytes("uploads/"@) + category_prefix(c) + ascii_bytes("-"@) + rest
        + ascii_bytes("."@) + category_ext(c));
}

/// A listing: each path followed by a comma.
pub open spec fn csv_of(paths: Seq<Seq<u8>>) -> Seq<u8>
    decreases paths.len(),
{
    if paths.len() == 0 {
        Seq::empty()
    } else {
        paths[0] + seq![44u8] + csv_of(paths.skip(1))
    }
}

/// The byte strings that a vector of vectors holds.
pub open spec fn views(v: Seq<Vec<u8>>) -> Seq<Seq<u8>> {
    v.map_values(|p: Vec<u8>| p@)
}

/// Adding a path to a listing adds it and a comma at the end.
proof fn lemma_csv_push(paths: Seq<Seq<u8>>, p: Seq<u8>)
    ensures
        csv_of(paths.push(p)) == csv_of(paths) + p + seq![44u8],
    decreases paths.len(),
{
    if paths.len() == 0 {
        assert(paths.push(p).skip(1) =~= Seq::<Seq<u8>>::empty());
        assert(paths.push(p)[0] == p);
        assert(csv_of(paths.push(p).skip(1)) == Seq::<u8>::empty());
        assert(csv_of(paths) == Seq::<u8>::empty());
        assert(csv_of(paths.push(p)) =~= csv_of(paths) + p + seq![44u8]);
    } else {
        lemma_csv_push(paths.skip(1), p);
        assert(paths.push(p).skip(1) =~= paths.skip(1).push(p));
        assert(paths.push(p)[0] == paths[0]);
        assert(csv_of(paths.push(p)) == paths[0] + seq![44u8] + csv_of(paths.skip(1).push(p)));
        assert(csv_of(paths) == paths[0] + seq![44u8] + csv_of(paths.skip(1)));
        assert(csv_of(paths.push(p)) =~= csv_of(paths) + p + seq![44u8]);
    }
}

/// The entries of a comma-terminated listing, in order.
pub open spec fn fields_of(s: Seq<u8>) -> Seq<Seq<u8>>
    decreases s.len(),
{
    let i = index_of_from(s, 44, 0);
    if s.len() == 0 {
        Seq::empty()
    } else if 0 <= i < s.len() {
        seq![s.take(i)] + fields_of(s.skip(i + 1))
    } else {
        seq![s]
    }
}

/// No comma occurs in any of the paths.
pub open spec fn comma_free(paths: Seq<Seq<u8>>) -> bool {
    forall|k: int, j: int| 0 <= k < paths.len() && 0 <= j < paths[k].len() ==> #[trigger] paths[k][j] != 44
}

/// A listing of paths that hold no comma splits back, at its commas, into those paths.
pub proof fn lemma_listing_fields(paths: Seq<Seq<u8>>)
    requires
        comma_free(paths),
    ensures
        fields_of(csv_of(paths)) == paths,
    decreases paths.len(),
{
    if paths.len() > 0 {
        let p = paths[0];
        let rest = paths.skip(1);
        let s = csv_of(paths);
        assert(comma_free(rest)) by {
            assert forall|k: int, j: int| 0 <= k < rest.len() && 0 <= j < rest[k].len() implies #[trigger] rest[k][j] != 44 by {
                assert(rest[k] == paths[k + 1]);
            }
        }
        lemma_listing_fields(rest);
        assert(s == p + seq![44u8] + csv_of(rest));
        assert forall|j: int| 0 <= j < p.len() implies s[j] != 44 by {
            assert(s[j] == p[j]);
            assert(paths[0][j] != 44);
        }
        assert(s[p.len() as int] == 44);
        lemma_index_first(s, 44, 0, p.len() as int);
        assert(s.take(p.len() as int) =~= p);
        assert(s.skip(p.len() as int + 1) =~= csv_of(rest));
        assert(fields_of(s) == seq![p] + fields_of(csv_of(rest)));
        assert(seq![p] + rest =~= paths);
    } else {
        assert(csv_of(paths) =~= Seq::<u8>::empty());
        assert(paths =~= Seq::<Seq<u8>>::empty());
    }
}

/// Listing round trip: when the matched paths are distinct and hold no comma, a path among
/// them is exactly one entry of the listing.
pub proof fn lemma_listed_once(paths: Seq<Seq<u8>>, p: Seq<u8>)
    requires
        comma_free(paths),
        paths.no_duplicates(),
        paths.contains(p),
    ensures
        exists|k: int|
            0 <= k < fields_of(csv_of(paths)).len() && fields_of(csv_of(paths))[k] == p && forall|j: int|
                0 <= j < fields_of(csv_of(paths)).len() && #[trigger] fields_of(csv_of(paths))[j] == p ==> j == k,
{
    lemma_listing_fields(paths);
    let k = choose|k: int| 0 <= k < paths.len() && paths[k] == p;
    assert(fields_of(csv_of(paths))[k] == p);
}

/// Joins the listed paths, each followed by a comma.
pub fn listing_csv(paths: &Vec<Vec<u8>>) -> (r: Vec<u8>)
    ensures
        r@ == csv_of(views(paths@)),
{
    let mut r: Vec<u8> = Vec::new();
    let mut i: usize = 0;
    while i < paths.len()
        invariant
            i <= paths@.len(),
            r@ == csv_of(views(paths@).take(i as int)),
        decreases paths@.len() - i,
    {
        proof {
            lemma_csv_push(views(paths@).take(i as int), paths@[i as int]@);
            assert(views(paths@).take(i + 1) =~= views(paths@).take(i as int).push(paths@[i as int]@));
        }
        push_all(&mut r, paths[i].as_slice());
        r.push(44u8);
        i = i + 1;
    }
    assert(views(paths@).take(i as int) =~= views(paths@));
    r
}

/// The listing response for the paths that matched a category's pattern.
pub fn listing_response(paths: &Vec<Vec<u8>>) -> (r: Vec<u8>)
    ensures
        r@ == response_bytes(status_text(Status::Success), mime_text(Mime::Csv), csv_of(views(paths@))),
{
    let body = listing_csv(paths);
    bytes_response(Status::Success, Mime::Csv, body.as_slice())
}

} // verus!
