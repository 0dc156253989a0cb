//! The authenticated user's operations, as verified extraction and planning
//! logic: reading the user hash off the account page, listing the account's
//! albums and uploaded files off their pages, and building the exact
//! requests of the upload and add-to-album write endpoints. Fetching pages
//! and posting requests is the caller's concern.
use crate::album::{parsed_webs, web_views, Album};
use crate::authentication::is_success_status;
use crate::dom::{
    attr_find, attrs_of, children_of, first_with_class, first_with_id, inner_text_of, is_tag,
    labeled_value, lemma_subtree_bounds, subtree_of, AttrData, Dom, DomNode,
};
use crate::text::str_eq;
use crate::weburl::{path_segments_of, slug_of_path, WebUrl, parse_url};
use vstd::prelude::*;

verus! {

/// The failure kinds of user operations.
#[derive(Debug, Clone, PartialEq, Eq)]
pub enum UserError {
    /// The authenticated client could not be created for these credentials.
    AuthenticatedClientCreation { username: String, password: String },
    /// The credential store could not be initialized.
    KeyringInitilization,
    /// No password is stored.
    LackOfPassword,
    /// No username is stored.
    LackOfUser,
    /// The request to `url` failed.
    Request { url: String },
    /// The response body could not be decoded as text.
    NotAText,
    /// The response carried a non-success status.
    ErrorCode { code: u16 },
    /// The file at `file` could not be read.
    ReadFile { file: String },
    /// The slug is not among the account's uploaded files.
    InvalidSlug { slug: String },
    /// The page could not be fetched as HTML.
    InvalidHtml,
    /// The page could not be parsed as HTML.
    HtmlParse,
    /// A node id did not resolve: an internal invariant violation.
    LackOfNodeid,
    /// The page lacks the expected container element.
    LackOfContainer,
    /// The container has no children.
    LackOfChildren,
    /// No node's label matches the user-hash label exactly.
    LackOfUserHash,
    /// No short code could be read from the album URL `url`.
    ShortParsing { url: String },
}

/// The exact label under which the account page lists the user hash.
pub open spec fn user_hash_label() -> Seq<char> {
    "Your userhash is:"@
}

/// The user hash on the account page: inside the first element with the
/// account-note class, the value keyed by the exact label. A container
/// without a matching descendant — a childless one included — simply has
/// no label match.
pub open spec fn user_hash_spec(nodes: Seq<DomNode>) -> Result<Seq<char>, UserError> {
    match first_with_class(nodes, "notesmall"@) {
        None => Err(UserError::LackOfContainer),
        Some(c) => match labeled_value(nodes, c, user_hash_label()) {
            Some(v) => Ok(v),
            None => Err(UserError::LackOfUserHash),
        },
    }
}

/// Reads the user hash off the parsed account page.
pub fn extract_user_hash(dom: &Dom) -> (r: Result<String, UserError>)
    requires
        dom.wf(),
    ensures
        match r {
            Ok(v) => user_hash_spec(dom.nodes@) == Ok::<_, UserError>(v@),
            Err(e) => user_hash_spec(dom.nodes@) == Err::<Seq<char>, _>(e),
        },
{
    let c = match dom.find_by_class("notesmall") {
        Ok(c) => c,
        Err(_) => {
            return Err(UserError::LackOfContainer);
        },
    };
    match dom.find_labeled_value(c, "Your userhash is:") {
        Ok(v) => Ok(v),
        Err(_) => Err(UserError::LackOfUserHash),
    }
}

/// The inner texts of the given nodes, in order.
pub open spec fn inner_texts_at(nodes: Seq<DomNode>, idxs: Seq<usize>) -> Seq<Seq<char>>
    decreases idxs.len(),
{
    if idxs.len() == 0 {
        Seq::empty()
    } else {
        seq![inner_text_of(nodes, idxs[0] as int)] + inner_texts_at(nodes, idxs.drop_first())
    }
}

/// The albums on the album-management page: each text-holder element's
/// inner text, kept where it parses as a URL.
pub open spec fn owned_albums_spec(nodes: Seq<DomNode>) -> Seq<(Seq<char>, Seq<char>)> {
    parsed_webs(inner_texts_at(nodes, crate::dom::selected(nodes, "span"@, "textHolder"@)))
}

/// The (text, path) views of a sequence of albums.
pub open spec fn album_views(albums: Seq<Album>) -> Seq<(Seq<char>, Seq<char>)> {
    albums.map_values(|a: Album| (a.url.text@, a.url.path@))
}

/// Lists the account's albums off the parsed album-management page; an
/// element whose text is not a URL is dropped, and no match is no error.
pub fn extract_owned_albums(dom: &Dom) -> (r: Vec<Album>)
    requires
        dom.wf(),
    ensures
        album_views(r@) == owned_albums_spec(dom.nodes@),
{
    let sel = dom.select_all("span", "textHolder");
    let mut out: Vec<Album> = Vec::new();
    let mut k: usize = 0;
    proof {
        assert(sel@.subrange(0, sel@.len() as int) =~= sel@);
        assert(album_views(Seq::<Album>::empty()) =~= Seq::<(Seq<char>, Seq<char>)>::empty());
    }
    while k < sel.len()
        invariant
            dom.wf(),
            sel@ == crate::dom::selected(dom.nodes@, "span"@, "textHolder"@),
            forall|j: int| 0 <= j < sel@.len() ==> #[trigger] sel@[j] < dom.nodes@.len(),
            k <= sel@.len(),
            album_views(out@) + parsed_webs(
                inner_texts_at(dom.nodes@, sel@.subrange(k as int, sel@.len() as int)),
            ) == parsed_webs(inner_texts_at(dom.nodes@, sel@)),
        decreases sel@.len() - k,
    {
        let ghost rest = sel@.subrange(k as int, sel@.len() as int);
        proof {
            assert(rest[0] == sel@[k as int]);
            assert(rest.drop_first() =~= sel@.subrange(k + 1, sel@.len() as int));
        }
        let i = sel[k];
        let t = dom.inner_text(i);
        let ghost ww = album_views(out@);
        let ghost texts = inner_texts_at(dom.nodes@, rest);
        proof {
            assert(texts.len() > 0 && texts[0] == inner_text_of(dom.nodes@, rest[0] as int));
            assert(texts.drop_first() =~= inner_texts_at(dom.nodes@, rest.drop_first()));
        }
        match parse_url(t.as_str()) {
            Some(u) => {
                let ghost uview = (u.text@, u.path@);
                out.push(Album { url: u });
                proof {
                    assert(album_views(out@) =~= ww + seq![uview]);
                    let tailp = parsed_webs(texts.drop_first());
                    assert(parsed_webs(texts) == seq![uview] + tailp);
                    assert((ww + (seq![uview] + tailp)) =~= ((ww + seq![uview]) + tailp));
                }
            },
            None => {
                proof {
                    assert(parsed_webs(texts) =~= Seq::<(Seq<char>, Seq<char>)>::empty()
                        + parsed_webs(texts.drop_first()));
                }
            },
        }
        k = k + 1;
    }
    proof {
        assert(sel@.subrange(k as int, sel@.len() as int) =~= Seq::<usize>::empty());
        assert(album_views(out@) + parsed_webs(
            inner_texts_at(dom.nodes@, Seq::<usize>::empty()),
        ) =~= album_views(out@));
    }
    out
}

/// The `href` values of the tag nodes that carry a `target` attribute, in
/// document order; a node without a decodable `href` value is dropped.
pub open spec fn target_hrefs(nodes: Seq<DomNode>, idxs: Seq<usize>) -> Seq<Seq<char>>
    decreases idxs.len(),
{
    if idxs.len() == 0 {
        Seq::empty()
    } else {
        let i = idxs[0] as int;
        (if is_tag(nodes, i) && attr_find(attrs_of(nodes, i), "target"@) is Some {
            match attr_find(attrs_of(nodes, i), "href"@) {
                Some(AttrData::Text(v)) => seq![v@],
                _ => Seq::empty(),
            }
        } else {
            Seq::empty()
        }) + target_hrefs(nodes, idxs.drop_first())
    }
}

/// The files on the user's file-view page: under the results container,
/// the `href` of every tag child carrying a `target` attribute, each kept
/// where it parses as a URL.
pub open spec fn owned_files_spec(nodes: Seq<DomNode>) -> Result<
    Seq<(Seq<char>, Seq<char>)>,
    UserError,
> {
    match first_with_id(nodes, "results"@) {
        None => Err(UserError::LackOfContainer),
        Some(c) => if children_of(nodes, c).len() == 0 {
            Err(UserError::LackOfChildren)
        } else {
            Ok(parsed_webs(target_hrefs(nodes, subtree_of(nodes, c))))
        },
    }
}

/// Lists the account's uploaded files off the parsed file-view page.
pub fn extract_owned_files(dom: &Dom) -> (r: Result<Vec<WebUrl>, UserError>)
    requires
        dom.wf(),
    ensures
        match r {
            Ok(fs) => owned_files_spec(dom.nodes@) == Ok::<_, UserError>(web_views(fs@)),
            Err(e) => owned_files_spec(dom.nodes@) == Err::<Seq<(Seq<char>, Seq<char>)>, _>(e),
        },
{
    let c = match dom.find_by_id("results") {
        Ok(c) => c,
        Err(_) => {
            return Err(UserError::LackOfContainer);
        },
    };
    match dom.require_children(c) {
        Ok(u) => u,
        Err(_) => {
            return Err(UserError::LackOfChildren);
        },
    };
    let idxs = dom.subtree(c);
    proof {
        lemma_subtree_bounds(dom.nodes@, c as int);
    }
    let mut out: Vec<WebUrl> = Vec::new();
    let mut k: usize = 0;
    proof {
        assert(idxs@.subrange(0, idxs@.len() as int) =~= idxs@);
        assert(web_views(Seq::<WebUrl>::empty()) =~= Seq::<(Seq<char>, Seq<char>)>::empty());
    }
    while k < idxs.len()
        invariant
            dom.wf(),
            idxs@ == subtree_of(dom.nodes@, c as int),
            c < dom.nodes@.len(),
            forall|j: int| 0 <= j < idxs@.len() ==> c < #[trigger] idxs@[j] < dom.nodes@.len(),
            k <= idxs@.len(),
            web_views(out@) + parsed_webs(
                target_hrefs(dom.nodes@, idxs@.subrange(k as int, idxs@.len() as int)),
            ) == parsed_webs(target_hrefs(dom.nodes@, idxs@)),
        decreases idxs@.len() - k,
    {
        let ghost rest = idxs@.subrange(k as int, idxs@.len() as int);
        proof {
            assert(rest[0] == idxs@[k as int]);
            assert(rest.drop_first() =~= idxs@.subrange(k + 1, idxs@.len() as int));
        }
        let i = idxs[k];
        let ghost ww = web_views(out@);
        let ghost hrefs = target_hrefs(dom.nodes@, rest);
        let ghost tail_hrefs = target_hrefs(dom.nodes@, rest.drop_first());
        let mut kept: Option<WebUrl> = None;
        match &dom.nodes[i] {
            DomNode::Tag { attrs, .. } => {
                if crate::dom::attr_get(attrs, "target").is_some() {
                    match crate::dom::attr_get(attrs, "href") {
                        Some(AttrData::Text(v)) => {
                            proof {
                                assert(hrefs == seq![v@] + tail_hrefs);
                            }
                            match parse_url(v.as_str()) {
                                Some(u) => {
                                    proof {
                                        assert(seq![v@].drop_first() =~= Seq::<Seq<char>>::empty());
                                        assert(parsed_webs(seq![v@] + tail_hrefs) == seq![
                                            (u.text@, u.path@),
                                        ] + parsed_webs((seq![v@] + tail_hrefs).drop_first()));
                                        assert((seq![v@] + tail_hrefs).drop_first()
                                            =~= tail_hrefs);
                                    }
                                    kept = Some(u);
                                },
                                None => {
                                    proof {
                                        assert(parsed_webs(seq![v@] + tail_hrefs) =~= Seq::<
                                            (Seq<char>, Seq<char>),
                                        >::empty() + parsed_webs(
                                            (seq![v@] + tail_hrefs).drop_first(),
                                        ));
                                        assert((seq![v@] + tail_hrefs).drop_first()
                                            =~= tail_hrefs);
                                    }
                                },
                            }
                        },
                        _ => {
                            proof {
                                assert(hrefs =~= Seq::<Seq<char>>::empty() + tail_hrefs);
                            }
                        },
                    }
                } else {
                    proof {
                        assert(hrefs =~= Seq::<Seq<char>>::empty() + tail_hrefs);
                    }
                }
            },
            _ => {
                proof {
                    assert(hrefs =~= Seq::<Seq<char>>::empty() + tail_hrefs);
                }
            },
        }
        match kept {
            Some(u) => {
                let ghost uview = (u.text@, u.path@);
                out.push(u);
                proof {
                    assert(web_views(out@) =~= ww + seq![uview]);
                    assert(parsed_webs(hrefs) == seq![uview] + parsed_webs(tail_hrefs));
                    assert((ww + (seq![uview] + parsed_webs(tail_hrefs))) =~= ((ww + seq![uview])
                        + parsed_webs(tail_hrefs)));
                }
            },
            None => {
                proof {
                    assert(parsed_webs(hrefs) =~= parsed_webs(tail_hrefs));
                }
            },
        }
        k = k + 1;
    }
    proof {
        assert(idxs@.subrange(k as int, idxs@.len() as int) =~= Seq::<usize>::empty());
        assert(web_views(out@) + parsed_webs(
            target_hrefs(dom.nodes@, Seq::<usize>::empty()),
        ) =~= web_views(out@));
    }
    Ok(out)
}

/// The short code of an album: the second '/'-separated segment of its
/// canonical URL's path.
pub open spec fn short_code_of(path: Seq<char>) -> Option<Seq<char>> {
    match path_segments_of(path) {
        Some(segs) => if segs.len() >= 2 {
            Some(segs[1])
        } else {
            None
        },
        None => None,
    }
}

/// Whether `slug` names one of the account's uploaded files, after the
/// leading path separator of each file's path is stripped.
pub open spec fn owns_slug(files: Seq<WebUrl>, slug: Seq<char>) -> bool {
    exists|i: int| 0 <= i < files.len() && slug_of_path(#[trigger] files[i].path@) == slug
}

/// The short code of an album, read off its canonical URL; an album URL
/// without one yields the short-parsing error naming that URL.
pub fn album_short_code(album: &Album) -> (r: Result<String, UserError>)
    ensures
        r is Ok <==> short_code_of(album.url.path@) is Some,
        r matches Ok(s) ==> short_code_of(album.url.path@) == Some(s@),
        r matches Err(e) ==> (e matches (UserError::ShortParsing { url }) && url@
            == album.url.text@),
{
    match album.url.path_segments() {
        Some(segs) => {
            if segs.len() >= 2 {
                proof {
                    assert(crate::text::views_of(segs@)[1] == segs@[1]@);
                }
                Ok(segs[1].clone())
            } else {
                Err(UserError::ShortParsing { url: album.url.text.clone() })
            }
        },
        None => Err(UserError::ShortParsing { url: album.url.text.clone() }),
    }
}

/// Precondition enforcement: a slug that matches none of the uploaded
/// files' slug forms — each file's path with its leading separator
/// stripped — is not owned, so by `plan_add_to_album`'s contract the plan
/// is exactly the invalid-slug error and no request value exists to send.
pub proof fn lemma_unowned_slug_is_rejected(owned: Seq<WebUrl>, slug: Seq<char>)
    requires
        forall|i: int| 0 <= i < owned.len() ==> slug_of_path(#[trigger] owned[i].path@) != slug,
    ensures
        !owns_slug(owned, slug),
{
}

/// The add-to-album write request: the exact form fields of the endpoint.
pub struct AddToAlbumRequest {
    pub reqtype: String,
    pub userhash: String,
    pub short: String,
    pub files: String,
}

/// Plans the add-to-album write. Precondition-checked: the album URL must
/// yield a short code, and `slug` must be among the account's uploaded
/// files — otherwise the error names what failed and no request is built,
/// so nothing can be sent.
pub fn plan_add_to_album(
    album: &Album,
    owned: &Vec<WebUrl>,
    slug: &str,
    user_hash: &str,
) -> (r: Result<AddToAlbumRequest, UserError>)
    ensures
        r is Ok <==> (short_code_of(album.url.path@) is Some && owns_slug(owned@, slug@)),
        short_code_of(album.url.path@) is None ==> (r matches Err(e) && e matches
            (UserError::ShortParsing { url }) && url@ == album.url.text@),
        short_code_of(album.url.path@) is Some && !owns_slug(owned@, slug@) ==> (r matches Err(e)
            && e matches (UserError::InvalidSlug { slug: s }) && s@ == slug@),
        short_code_of(album.url.path@) is Some && owns_slug(owned@, slug@) ==> (r matches Ok(q)
            && q.reqtype@ == "addtoalbum"@ && q.userhash@ == user_hash@ && Some(q.short@)
            == short_code_of(album.url.path@) && q.files@ == slug@),
{
    let short = match album_short_code(album) {
        Ok(s) => s,
        Err(e) => {
            return Err(e);
        },
    };
    let mut found = false;
    let mut i: usize = 0;
    while i < owned.len() && !found
        invariant
            i <= owned@.len(),
            !found ==> forall|j: int| 0 <= j < i ==> slug_of_path(#[trigger] owned@[j].path@)
                != slug@,
            found ==> owns_slug(owned@, slug@),
        decreases owned@.len() - i + (if found { 0int } else { 1int }),
    {
        let s = owned[i].slug();
        if str_eq(s.as_str(), slug) {
            proof {
                assert(slug_of_path(owned@[i as int].path@) == slug@);
            }
            found = true;
        }
        i = i + 1;
    }
    if !found {
        return Err(UserError::InvalidSlug { slug: slug.to_owned() });
    }
    Ok(AddToAlbumRequest {
        reqtype: "addtoalbum".to_owned(),
        userhash: user_hash.to_owned(),
        short,
        files: slug.to_owned(),
    })
}

/// The multipart upload request: the exact fixed `reqtype` field, the
/// cached user hash, and the file part keeping its original name.
pub struct UploadRequest {
    pub reqtype: String,
    pub userhash: String,
    pub file_name: String,
}

/// Plans one file upload's multipart form.
pub fn plan_upload(user_hash: &str, file_name: &str) -> (r: UploadRequest)
    ensures
        r.reqtype@ == "fileupload"@,
        r.userhash@ == user_hash@,
        r.file_name@ == file_name@,
{
    UploadRequest {
        reqtype: "fileupload".to_owned(),
        userhash: user_hash.to_owned(),
        file_name: file_name.to_owned(),
    }
}

/// The status stage of the write endpoints: a success status is required
/// before the body is read; anything else is the status error carrying the
/// code.
pub fn require_success_status(code: u16) -> (r: Result<(), UserError>)
    ensures
        r is Ok <==> is_success_status(code),
        r matches Err(e) ==> e == (UserError::ErrorCode { code }),
{
    if 200 <= code && code < 300 {
        Ok(())
    } else {
        Err(UserError::ErrorCode { code })
    }
}

/// Decides an upload from its response: a success status yields the body
/// text verbatim — that text is the remote URL, with no further validation
/// — anything else is the status error carrying the code.
pub fn upload_response(code: u16, body: String) -> (r: Result<String, UserError>)
    ensures
        r is Ok <==> is_success_status(code),
        r matches Ok(t) ==> t == body,
        r matches Err(e) ==> e == (UserError::ErrorCode { code }),
{
    match require_success_status(code) {
        Ok(u) => {
            let _ = u;
            Ok(body)
        },
        Err(e) => Err(e),
    }
}

/// One upload's progress counter, fed a byte delta per streamed chunk.
pub struct Progress {
    pub total: u64,
    pub transferred: u64,
}

impl Progress {
    /// A fresh counter for a file of `total` bytes.
    pub fn new(total: u64) -> (r: Progress)
        ensures
            r.total == total,
            r.transferred == 0,
    {
        Progress { total, transferred: 0 }
    }

    /// Records one streamed chunk; the counter saturates rather than wraps.
    pub fn record_chunk(&mut self, delta: u64)
        ensures
            final(self).total == old(self).total,
            final(self).transferred == if old(self).transferred + delta <= u64::MAX {
                old(self).transferred + delta
            } else {
                u64::MAX as int
            },
    {
        if delta <= u64::MAX - self.transferred {
            self.transferred = self.transferred + delta;
        } else {
            self.transferred = u64::MAX;
        }
    }
}

} // verus!
