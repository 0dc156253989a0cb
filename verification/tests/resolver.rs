use catbox_cli::album::{
    album_from_identifier, extract_slug, normalize_identifier, Album, AlbumError, Files,
};
use catbox_cli::dom::{Attr, AttrData, Dom, DomNode};
use catbox_cli::user::{
    album_short_code, extract_owned_albums, extract_owned_files, plan_add_to_album, UserError,
};
use catbox_cli::weburl::{parse_url, WebUrl};

fn tag(name: &str, attrs: Vec<Attr>, children: Vec<usize>) -> DomNode {
    DomNode::Tag { name: name.to_string(), attrs, children }
}

fn text(t: &str) -> DomNode {
    DomNode::Text(t.to_string())
}

fn attr(name: &str, value: &str) -> Attr {
    Attr { name: name.to_string(), data: AttrData::Text(value.to_string()) }
}

#[test]
fn normalize_expands_a_bare_short_code() {
    assert_eq!(normalize_identifier("abc123"), "https://catbox.moe/c/abc123".to_string());
}

#[test]
fn normalize_round_trips_its_own_canonical_url() {
    let once = normalize_identifier("abc123");
    let twice = normalize_identifier(&once);
    assert_eq!(once, twice);
}

#[test]
fn normalize_passes_a_full_url_through() {
    assert_eq!(
        normalize_identifier("https://catbox.moe/c/hpxdlu"),
        "https://catbox.moe/c/hpxdlu".to_string()
    );
}

#[test]
fn album_from_identifier_parses_the_canonical_url() {
    let album = album_from_identifier("abc123").unwrap();
    assert_eq!(album.url.text, "https://catbox.moe/c/abc123".to_string());
    assert_eq!(album.url.path, "/c/abc123".to_string());
}

#[test]
fn album_from_identifier_rejects_an_unparsable_url() {
    assert_eq!(
        album_from_identifier("catbox.moe but not a url").err(),
        Some(AlbumError::UnparsableUrl)
    );
}

#[test]
fn extract_slug_recovers_the_slug_of_a_direct_file_url() {
    assert_eq!(
        extract_slug("https://files.catbox.moe/abcdef.jpg"),
        Some("abcdef.jpg".to_string())
    );
}

#[test]
fn extract_slug_passes_a_bare_slug_through() {
    assert_eq!(extract_slug("abcdef.jpg"), Some("abcdef.jpg".to_string()));
}

#[test]
fn extract_slug_drops_an_unparsable_file_url() {
    assert_eq!(extract_slug("files.catbox.moe but not a url"), None);
}

#[test]
fn public_album_scrape_keeps_document_order() {
    let dom = Dom {
        nodes: vec![
            tag("body", vec![], vec![1]),
            tag("div", vec![attr("class", "imagecontainer")], vec![2, 3]),
            tag("video", vec![attr("src", "https://host/a.mp4")], vec![]),
            tag("img", vec![attr("src", "https://host/b.jpg")], vec![]),
        ],
    };
    let files = Album::extract_files(&dom).unwrap();
    let texts: Vec<String> = files.urls.iter().map(|u| u.text.clone()).collect();
    assert_eq!(texts, vec!["https://host/a.mp4".to_string(), "https://host/b.jpg".to_string()]);
}

#[test]
fn public_album_scrape_falls_back_to_href() {
    let dom = Dom {
        nodes: vec![
            tag("div", vec![attr("class", "imagecontainer")], vec![1]),
            tag("a", vec![attr("href", "https://host/c.webm")], vec![]),
        ],
    };
    let files = Album::extract_files(&dom).unwrap();
    assert_eq!(files.urls.len(), 1);
    assert_eq!(files.urls[0].text, "https://host/c.webm".to_string());
}

#[test]
fn public_album_scrape_drops_unparsable_urls() {
    let dom = Dom {
        nodes: vec![
            tag("div", vec![attr("class", "imagecontainer")], vec![1, 2]),
            tag("img", vec![attr("src", "not a url")], vec![]),
            tag("img", vec![attr("src", "https://host/d.png")], vec![]),
        ],
    };
    let files = Album::extract_files(&dom).unwrap();
    assert_eq!(files.urls.len(), 1);
    assert_eq!(files.urls[0].text, "https://host/d.png".to_string());
}

#[test]
fn public_album_scrape_errors() {
    let empty = Dom { nodes: vec![tag("body", vec![], vec![])] };
    assert_eq!(Album::extract_files(&empty).err(), Some(AlbumError::LackOfVideoContainer));

    let childless = Dom { nodes: vec![tag("div", vec![attr("class", "imagecontainer")], vec![])] };
    assert_eq!(Album::extract_files(&childless).err(), Some(AlbumError::LackOfChildren));

    let bare = Dom {
        nodes: vec![
            tag("div", vec![attr("class", "imagecontainer")], vec![1]),
            tag("img", vec![attr("alt", "no source")], vec![]),
        ],
    };
    assert_eq!(Album::extract_files(&bare).err(), Some(AlbumError::LackOfSrc));

    let undecodable = Dom {
        nodes: vec![
            tag("div", vec![attr("class", "imagecontainer")], vec![1]),
            tag(
                "img",
                vec![Attr { name: "src".to_string(), data: AttrData::Undecodable }],
                vec![],
            ),
        ],
    };
    assert_eq!(Album::extract_files(&undecodable).err(), Some(AlbumError::Utf8Incompatiable));
}

#[test]
fn owned_albums_parse_each_text_holder() {
    let dom = Dom {
        nodes: vec![
            tag("body", vec![], vec![1, 3, 5]),
            tag("span", vec![attr("class", "textHolder")], vec![2]),
            text("https://catbox.moe/c/one"),
            tag("span", vec![attr("class", "textHolder")], vec![4]),
            text("not a url"),
            tag("span", vec![attr("class", "textHolder")], vec![6]),
            text("https://catbox.moe/c/two"),
        ],
    };
    let albums = extract_owned_albums(&dom);
    let texts: Vec<String> = albums.iter().map(|a| a.url.text.clone()).collect();
    assert_eq!(
        texts,
        vec!["https://catbox.moe/c/one".to_string(), "https://catbox.moe/c/two".to_string()]
    );
}

#[test]
fn owned_files_keep_only_targets_with_href() {
    let dom = Dom {
        nodes: vec![
            tag("body", vec![], vec![1]),
            tag("div", vec![attr("id", "results")], vec![2, 3, 4]),
            tag("a", vec![attr("target", "_blank"), attr("href", "https://files.catbox.moe/x.png")], vec![]),
            tag("a", vec![attr("href", "https://files.catbox.moe/skipped.png")], vec![]),
            tag("a", vec![attr("target", "_blank"), attr("href", "not a url")], vec![]),
        ],
    };
    let files = extract_owned_files(&dom).unwrap();
    assert_eq!(files.len(), 1);
    assert_eq!(files[0].text, "https://files.catbox.moe/x.png".to_string());
    assert_eq!(files[0].path, "/x.png".to_string());
}

#[test]
fn owned_files_errors() {
    let empty = Dom { nodes: vec![tag("body", vec![], vec![])] };
    assert_eq!(extract_owned_files(&empty).err(), Some(UserError::LackOfContainer));

    let childless = Dom { nodes: vec![tag("div", vec![attr("id", "results")], vec![])] };
    assert_eq!(extract_owned_files(&childless).err(), Some(UserError::LackOfChildren));
}

fn owned(paths: &[&str]) -> Vec<WebUrl> {
    paths
        .iter()
        .map(|p| parse_url(&format!("https://files.catbox.moe{}", p)).unwrap())
        .collect()
}

#[test]
fn add_to_album_rejects_a_foreign_slug_without_building_a_request() {
    let album = album_from_identifier("hpxdlu").unwrap();
    let files = owned(&["/one.png", "/two.png"]);
    let planned = plan_add_to_album(&album, &files, "three.png", "hash");
    assert_eq!(
        planned.err(),
        Some(UserError::InvalidSlug { slug: "three.png".to_string() })
    );
}

#[test]
fn add_to_album_builds_the_exact_form_for_an_owned_slug() {
    let album = album_from_identifier("hpxdlu").unwrap();
    let files = owned(&["/one.png", "/two.png"]);
    let planned = plan_add_to_album(&album, &files, "two.png", "hash").unwrap();
    assert_eq!(planned.reqtype, "addtoalbum".to_string());
    assert_eq!(planned.userhash, "hash".to_string());
    assert_eq!(planned.short, "hpxdlu".to_string());
    assert_eq!(planned.files, "two.png".to_string());
}

#[test]
fn add_to_album_needs_a_short_code_in_the_album_url() {
    // A cannot-be-a-base URL has no slash-led path, hence no segments.
    let url = parse_url("mailto:someone").unwrap();
    let album = Album::new(url);
    let files = owned(&["/one.png"]);
    let planned = plan_add_to_album(&album, &files, "one.png", "hash");
    assert_eq!(
        planned.err(),
        Some(UserError::ShortParsing { url: "mailto:someone".to_string() })
    );
}

#[test]
fn random_file_draws_one_of_the_album_files() {
    let files = Files { urls: owned(&["/a.png", "/b.png", "/c.png"]) };
    for _ in 0..20 {
        let picked = files.random_file().unwrap();
        assert!(files.urls.iter().any(|u| u.text == picked));
    }
    let empty = Files { urls: vec![] };
    assert_eq!(empty.random_file(), None);
}

#[test]
fn parse_url_normalizes_rather_than_echoes() {
    // A wrapper handing its argument back unchanged would fail this: the
    // parser normalizes the host case and resolves the dot segment.
    let u = parse_url("HTTPS://CATBOX.MOE/c/./abc").unwrap();
    assert_eq!(u.text, "https://catbox.moe/c/abc".to_string());
    assert_eq!(u.path, "/c/abc".to_string());
    assert_eq!(parse_url("no scheme here"), None);
}

#[test]
fn path_segments_split_the_slash_led_path() {
    let u = parse_url("https://catbox.moe/c/abc123").unwrap();
    assert_eq!(
        u.path_segments(),
        Some(vec!["c".to_string(), "abc123".to_string()])
    );
    assert_eq!(u.slug(), "c/abc123".to_string());

    let f = parse_url("https://files.catbox.moe/xyz.png").unwrap();
    assert_eq!(f.slug(), "xyz.png".to_string());
}

#[test]
fn public_album_scrape_walks_nested_tags_in_document_order() {
    let dom = Dom {
        nodes: vec![
            tag("div", vec![attr("class", "imagecontainer")], vec![1, 4]),
            tag("a", vec![attr("href", "https://host/one.png")], vec![2, 3]),
            tag("img", vec![attr("src", "https://host/two.png")], vec![]),
            tag("img", vec![attr("src", "https://host/three.png")], vec![]),
            tag("img", vec![attr("src", "https://host/four.png")], vec![]),
        ],
    };
    let files = Album::extract_files(&dom).unwrap();
    let texts: Vec<String> = files.urls.iter().map(|u| u.text.clone()).collect();
    assert_eq!(
        texts,
        vec![
            "https://host/one.png".to_string(),
            "https://host/two.png".to_string(),
            "https://host/three.png".to_string(),
            "https://host/four.png".to_string(),
        ]
    );
}

#[test]
fn public_album_scrape_fails_on_a_bare_wrapper_tag() {
    // Every tag descendant must carry one of the requested attributes; a
    // wrapper without either fails the whole scrape.
    let dom = Dom {
        nodes: vec![
            tag("div", vec![attr("class", "imagecontainer")], vec![1]),
            tag("div", vec![], vec![2]),
            tag("img", vec![attr("src", "https://host/one.png")], vec![]),
        ],
    };
    assert_eq!(Album::extract_files(&dom).err(), Some(AlbumError::LackOfSrc));
}

#[test]
fn album_short_code_reads_the_trailing_segment() {
    let album = album_from_identifier("hpxdlu").unwrap();
    assert_eq!(album_short_code(&album), Ok("hpxdlu".to_string()));

    let no_segments = Album::new(parse_url("mailto:someone").unwrap());
    assert_eq!(
        album_short_code(&no_segments).err(),
        Some(UserError::ShortParsing { url: "mailto:someone".to_string() })
    );
}
