//! URLs as the logic reads them: the serialized text and the path, held as
//! plain strings. Parsing is the url crate's work, behind one trusted
//! wrapper; everything derived from a parsed URL — its path segments and the
//! slug form of its path — is verified here.
use crate::text::{lemma_find_char_none, split_char, split_str, views_of};
use vstd::prelude::*;

verus! {

/// A parsed absolute URL: its full serialized text and its path part.
#[derive(Debug, Clone, PartialEq, Eq, PartialOrd, Ord)]
pub struct WebUrl {
    pub text: String,
    pub path: String,
}

/// What the WHATWG URL parser makes of a string: `None` where parsing
/// fails, otherwise the serialized text and the path. A name only — the
/// parser's outcome is a function of its input alone, and nothing more is
/// assumed of it here.
pub uninterp spec fn url_parts(s: Seq<char>) -> Option<(Seq<char>, Seq<char>)>;

/// Relies on url's `Url::parse` (the WHATWG URL parser), `Url::as_str` and
/// `Url::path`: whether a string parses as an absolute URL, and the
/// serialized text and path of the parsed value, depend on the string alone.
#[verifier::external_body]
pub fn parse_url(s: &str) -> (r: Option<WebUrl>)
    ensures
        r is Some <==> url_parts(s@) is Some,
        r matches Some(u) ==> url_parts(s@) matches Some(p) && u.text@ == p.0 && u.path@ == p.1,
{
    match url::Url::parse(s) {
        Ok(u) => {
            let path = u.path().to_owned();
            let text = u.as_str().to_owned();
            Some(WebUrl { text, path })
        },
        Err(_) => None,
    }
}

/// The '/'-separated segments of a URL path after its leading slash, as the
/// service's URLs carry them; `None` for a path without a leading slash.
pub open spec fn path_segments_of(path: Seq<char>) -> Option<Seq<Seq<char>>> {
    if path.len() > 0 && path[0] == '/' {
        Some(split_char(path.drop_first(), '/'))
    } else {
        None
    }
}

/// The path with its leading slash stripped: the slug form under which an
/// uploaded file is matched against the account's file list.
pub open spec fn slug_of_path(path: Seq<char>) -> Seq<char> {
    if path.len() > 0 && path[0] == '/' {
        path.drop_first()
    } else {
        path
    }
}

impl WebUrl {
    /// The path segments of this URL, or `None` where the path does not
    /// begin with a slash.
    pub fn path_segments(&self) -> (r: Option<Vec<String>>)
        ensures
            match r {
                Some(v) => path_segments_of(self.path@) == Some(views_of(v@)),
                None => path_segments_of(self.path@) is None,
            },
    {
        let p = self.path.as_str();
        let len = p.unicode_len();
        if len > 0 && p.get_char(0) == '/' {
            let rest = p.substring_char(1, len);
            proof {
                assert(rest@ =~= self.path@.drop_first());
            }
            Some(split_str(rest, '/'))
        } else {
            None
        }
    }

    /// The slug of an uploaded file: the path with its leading slash
    /// stripped.
    pub fn slug(&self) -> (r: String)
        ensures
            r@ == slug_of_path(self.path@),
    {
        let p = self.path.as_str();
        let len = p.unicode_len();
        if len > 0 && p.get_char(0) == '/' {
            let rest = p.substring_char(1, len);
            proof {
                assert(rest@ =~= self.path@.drop_first());
            }
            rest.to_owned()
        } else {
            self.path.clone()
        }
    }
}

/// Stripping the leading slash recovers the slug a direct-file path was
/// built from.
pub proof fn lemma_slug_round_trip(slug: Seq<char>)
    ensures
        slug_of_path(seq!['/'] + slug) == slug,
{
    let p = seq!['/'] + slug;
    assert(p[0] == '/');
    assert(p.drop_first() =~= slug);
}

/// The first path segment of "/" followed by a slash-free slug is exactly
/// that slug.
pub proof fn lemma_first_segment_recovers(slug: Seq<char>)
    requires
        forall|j: int| 0 <= j < slug.len() ==> slug[j] != '/',
    ensures
        path_segments_of(seq!['/'] + slug) matches Some(segs) && segs.len() >= 1 && segs[0]
            == slug,
{
    let p = seq!['/'] + slug;
    assert(p[0] == '/');
    assert(p.drop_first() =~= slug);
    lemma_find_char_none(slug, '/');
    assert(split_char(slug, '/') == seq![slug]);
}

/// Every split has at least one piece.
pub proof fn lemma_split_nonempty(s: Seq<char>, c: char)
    ensures
        split_char(s, c).len() >= 1,
{
}

} // verus!
