//! Albums: identifier normalization, the public album scrape, and the slug
//! form of file identifiers. An album is identified by its canonical URL; a
//! bare short code expands to that URL through a fixed template, and the
//! short code is recoverable as a path segment of the URL.
use crate::dom::{
    children_of, collected_values, first_with_class, subtree_of, Dom, ExtractError,
    lemma_subtree_bounds,
};
use crate::text::{contains_seq, contains_str, views_of};
use crate::weburl::{parse_url, path_segments_of, url_parts, WebUrl};
use vstd::prelude::*;

verus! {

/// The failure kinds of album operations.
#[derive(Debug, Clone, PartialEq, Eq)]
pub enum AlbumError {
    /// The HTTP client could not be constructed.
    ClientCreation,
    /// The request to `url` failed.
    Request { url: String },
    /// The response carried a non-success status.
    ErrorCode { code: u16 },
    /// The response body could not be decoded as text.
    NotAText,
    /// The page could not be parsed as HTML.
    HtmlParse,
    /// A node id did not resolve: an internal invariant violation.
    LackOfNodeid,
    /// No element carries the file-container class.
    LackOfVideoContainer,
    /// The file container has no children.
    LackOfChildren,
    /// A tag inside the container carries neither `src` nor `href`.
    LackOfSrc,
    /// An attribute value's bytes are not valid text.
    Utf8Incompatiable,
    /// An identifier that must be a URL does not parse as one.
    UnparsableUrl,
}

/// An album, identified by its canonical URL.
#[derive(Debug, Clone, PartialEq, Eq, PartialOrd, Ord)]
pub struct Album {
    pub url: WebUrl,
}

/// The files of an album, in document order.
#[derive(Debug, Clone)]
pub struct Files {
    pub urls: Vec<WebUrl>,
}

/// The host marker that tells a full album URL from a bare short code.
pub open spec fn host_marker() -> Seq<char> {
    "catbox.moe"@
}

/// The host marker that tells a direct-file URL from a bare slug.
pub open spec fn file_host_marker() -> Seq<char> {
    "files.catbox.moe"@
}

/// The fixed template prefix from which a short code's canonical album URL
/// is built.
pub open spec fn album_base() -> Seq<char> {
    "https://catbox.moe/c/"@
}

/// The canonical album URL an identifier denotes: an identifier that
/// already names the service's host passes through unchanged, and a bare
/// short code is appended to the fixed template.
pub open spec fn normalized_spec(id: Seq<char>) -> Seq<char> {
    if contains_seq(id, host_marker()) {
        id
    } else {
        album_base() + id
    }
}

/// The slug an identifier denotes: a direct-file URL yields its first path
/// segment, any other identifier is already a slug. `None` where a
/// direct-file identifier does not parse or its path carries no segments.
pub open spec fn slug_spec(id: Seq<char>) -> Option<Seq<char>> {
    if contains_seq(id, file_host_marker()) {
        match url_parts(id) {
            Some(p) => match path_segments_of(p.1) {
                Some(segs) => Some(segs[0]),
                None => None,
            },
            None => None,
        }
    } else {
        Some(id)
    }
}

/// The pairs (serialized text, path) of the values that parse as URLs, in
/// order; a value that fails to parse is silently dropped.
pub open spec fn parsed_webs(vals: Seq<Seq<char>>) -> Seq<(Seq<char>, Seq<char>)>
    decreases vals.len(),
{
    if vals.len() == 0 {
        Seq::empty()
    } else {
        (match url_parts(vals[0]) {
            Some(p) => seq![p],
            None => Seq::empty(),
        }) + parsed_webs(vals.drop_first())
    }
}

/// The (text, path) views of a sequence of parsed URLs.
pub open spec fn web_views(urls: Seq<WebUrl>) -> Seq<(Seq<char>, Seq<char>)> {
    urls.map_values(|u: WebUrl| (u.text@, u.path@))
}

/// The public album scrape: the first element with the file-container
/// class, its children required, its tag descendants' `src` (fallback
/// `href`) values in document order, each kept only where it parses as a
/// URL.
pub open spec fn album_files_spec(nodes: Seq<crate::dom::DomNode>) -> Result<
    Seq<(Seq<char>, Seq<char>)>,
    AlbumError,
> {
    match first_with_class(nodes, "imagecontainer"@) {
        None => Err(AlbumError::LackOfVideoContainer),
        Some(c) => if children_of(nodes, c).len() == 0 {
            Err(AlbumError::LackOfChildren)
        } else {
            match collected_values(nodes, subtree_of(nodes, c), seq!["src"@, "href"@]) {
                Err(ExtractError::InvalidEncoding) => Err(AlbumError::Utf8Incompatiable),
                Err(_) => Err(AlbumError::LackOfSrc),
                Ok(vals) => Ok(parsed_webs(vals)),
            }
        },
    }
}

impl Album {
    /// Creates a new `Album` from its canonical URL.
    pub fn new(url: WebUrl) -> (r: Album)
        ensures
            r.url == url,
    {
        Album { url }
    }

    /// Extracts the album's files from its parsed public page.
    pub fn extract_files(dom: &Dom) -> (r: Result<Files, AlbumError>)
        requires
            dom.wf(),
        ensures
            match r {
                Ok(f) => album_files_spec(dom.nodes@) == Ok::<_, AlbumError>(web_views(f.urls@)),
                Err(e) => album_files_spec(dom.nodes@) == Err::<Seq<(Seq<char>, Seq<char>)>, _>(
                    e,
                ),
            },
    {
        let c = match dom.find_by_class("imagecontainer") {
            Ok(c) => c,
            Err(_) => {
                return Err(AlbumError::LackOfVideoContainer);
            },
        };
        match dom.require_children(c) {
            Ok(u) => u,
            Err(_) => {
                return Err(AlbumError::LackOfChildren);
            },
        };
        let idxs = dom.subtree(c);
        proof {
            lemma_subtree_bounds(dom.nodes@, c as int);
        }
        let mut names: Vec<String> = Vec::new();
        names.push("src".to_owned());
        names.push("href".to_owned());
        proof {
            assert(views_of(names@) =~= seq!["src"@, "href"@]);
        }
        let vals = match dom.collect_attribute_values(&idxs, &names) {
            Ok(vals) => vals,
            Err(ExtractError::InvalidEncoding) => {
                return Err(AlbumError::Utf8Incompatiable);
            },
            Err(_) => {
                return Err(AlbumError::LackOfSrc);
            },
        };
        let mut urls: Vec<WebUrl> = Vec::new();
        let mut k: usize = 0;
        proof {
            assert(views_of(vals@).subrange(0, vals@.len() as int) =~= views_of(vals@));
            assert(web_views(Seq::<WebUrl>::empty()) =~= Seq::<(Seq<char>, Seq<char>)>::empty());
        }
        while k < vals.len()
            invariant
                k <= vals@.len(),
                parsed_webs(views_of(vals@)) == web_views(urls@) + parsed_webs(
                    views_of(vals@).subrange(k as int, vals@.len() as int),
                ),
            decreases vals@.len() - k,
        {
            let ghost rest = views_of(vals@).subrange(k as int, vals@.len() as int);
            proof {
                assert(rest[0] == views_of(vals@)[k as int]);
                assert(views_of(vals@)[k as int] == vals@[k as int]@);
                assert(rest.drop_first() =~= views_of(vals@).subrange(k + 1, vals@.len() as int));
            }
            let ghost ww = web_views(urls@);
            match parse_url(vals[k].as_str()) {
                Some(u) => {
                    let ghost uview = (u.text@, u.path@);
                    urls.push(u);
                    proof {
                        assert(web_views(urls@) =~= ww + seq![uview]);
                        assert(parsed_webs(rest) == seq![uview] + parsed_webs(rest.drop_first()));
                        assert((ww + (seq![uview] + parsed_webs(rest.drop_first()))) =~= ((ww
                            + seq![uview]) + parsed_webs(rest.drop_first())));
                    }
                },
                None => {
                    proof {
                        assert(parsed_webs(rest) =~= Seq::<(Seq<char>, Seq<char>)>::empty()
                            + parsed_webs(rest.drop_first()));
                    }
                },
            }
            k = k + 1;
        }
        proof {
            assert(views_of(vals@).subrange(k as int, vals@.len() as int) =~= Seq::<
                Seq<char>,
            >::empty());
            assert(web_views(urls@) + parsed_webs(Seq::<Seq<char>>::empty()) =~= web_views(urls@));
        }
        Ok(Files { urls })
    }
}

/// Expands an album identifier to its canonical URL string: an identifier
/// naming the service's host passes through unchanged, a bare short code is
/// put into the fixed template.
pub fn normalize_identifier(id: &str) -> (r: String)
    ensures
        r@ == normalized_spec(id@),
{
    if contains_str(id, "catbox.moe") {
        id.to_owned()
    } else {
        let mut out = "https://catbox.moe/c/".to_owned();
        out.append(id);
        out
    }
}

/// Resolves an album identifier — canonical URL or bare short code — to an
/// `Album`, parsing the canonical URL strictly.
pub fn album_from_identifier(id: &str) -> (r: Result<Album, AlbumError>)
    ensures
        r is Ok <==> url_parts(normalized_spec(id@)) is Some,
        r matches Ok(a) ==> url_parts(normalized_spec(id@)) matches Some(p) && a.url.text@ == p.0
            && a.url.path@ == p.1,
        r matches Err(e) ==> e == AlbumError::UnparsableUrl,
{
    let canonical = normalize_identifier(id);
    match parse_url(canonical.as_str()) {
        Some(u) => Ok(Album::new(u)),
        None => Err(AlbumError::UnparsableUrl),
    }
}

/// Turns a file identifier — direct-file URL or bare slug — into the slug
/// the album write endpoint takes; a direct-file URL that does not parse,
/// or whose path has no segments, yields `None` and is dropped by callers.
pub fn extract_slug(id: &str) -> (r: Option<String>)
    ensures
        match r {
            Some(s) => slug_spec(id@) == Some(s@),
            None => slug_spec(id@) is None,
        },
{
    if contains_str(id, "files.catbox.moe") {
        match parse_url(id) {
            Some(u) => match u.path_segments() {
                Some(segs) => {
                    proof {
                        crate::weburl::lemma_split_nonempty(u.path@.drop_first(), '/');
                        assert(views_of(segs@)[0] == segs@[0]@);
                    }
                    Some(segs[0].clone())
                },
                None => None,
            },
            None => None,
        }
    } else {
        Some(id.to_owned())
    }
}

/// Normalization is idempotent: the canonical URL built from a short code
/// names the service's host, so normalizing it again changes nothing, and
/// both spell the same canonical URL.
pub proof fn lemma_normalize_round_trip(id: Seq<char>)
    ensures
        normalized_spec(normalized_spec(id)) == normalized_spec(id),
{
    if !contains_seq(id, host_marker()) {
        let built = album_base() + id;
        reveal_strlit("https://catbox.moe/c/");
        reveal_strlit("catbox.moe");
        assert(host_marker().len() == 10);
        assert(built.subrange(8, 8 + host_marker().len() as int) =~= host_marker());
        assert(contains_seq(built, host_marker()));
    }
}

/// Relies on rand's `random_range` over `0..n`: the draw is uniform, and
/// all that is assumed of it is that it stays below `n`.
#[verifier::external_body]
fn random_below(n: usize) -> (r: usize)
    requires
        n > 0,
    ensures
        r < n,
{
    rand::RngExt::random_range(&mut rand::rng(), 0..n)
}

impl Files {
    /// One of the album's file URLs, drawn at random; `None` for an empty
    /// album. Whatever the draw, the result is one of the files.
    pub fn random_file(&self) -> (r: Option<String>)
        ensures
            r is Some <==> self.urls@.len() > 0,
            r matches Some(s) ==> exists|i: int|
                0 <= i < self.urls@.len() && s@ == #[trigger] self.urls@[i].text@,
    {
        if self.urls.len() == 0 {
            None
        } else {
            let i = random_below(self.urls.len());
            let picked = self.urls[i].text.clone();
            proof {
                assert(picked@ == self.urls@[i as int].text@);
            }
            Some(picked)
        }
    }
}

} // verus!
