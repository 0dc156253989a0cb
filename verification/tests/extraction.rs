use catbox_cli::dom::{Attr, AttrData, Dom, DomNode, ExtractError};
use catbox_cli::user::{extract_user_hash, UserError};

fn tag(name: &str, attrs: Vec<Attr>, children: Vec<usize>) -> DomNode {
    DomNode::Tag { name: name.to_string(), attrs, children }
}

fn text(t: &str) -> DomNode {
    DomNode::Text(t.to_string())
}

fn attr(name: &str, value: &str) -> Attr {
    Attr { name: name.to_string(), data: AttrData::Text(value.to_string()) }
}

/// The account page: a container with the note class, holding a row whose
/// leading boundary is the exact label and whose trailing boundary carries
/// the hash with leading whitespace.
fn account_page(label: &str, value: &str) -> Dom {
    Dom {
        nodes: vec![
            tag("body", vec![], vec![1]),
            tag("div", vec![attr("class", "notesmall")], vec![2]),
            tag("p", vec![], vec![3, 4]),
            text(label),
            text(value),
        ],
    }
}

#[test]
fn labeled_value_is_found_and_left_trimmed() {
    let dom = account_page("Your userhash is:", "  abc123");
    assert_eq!(extract_user_hash(&dom), Ok("abc123".to_string()));
}

#[test]
fn labeled_value_keeps_trailing_text() {
    let dom = account_page("Your userhash is:", "\t abc123 ");
    assert_eq!(extract_user_hash(&dom), Ok("abc123 ".to_string()));
}

#[test]
fn near_miss_label_is_no_match() {
    // Exact match only: no trimming, no fuzzy match.
    let dom = account_page("Your userhash is: ", "  abc123");
    assert_eq!(extract_user_hash(&dom), Err(UserError::LackOfUserHash));
}

#[test]
fn absent_label_is_missing_label() {
    let dom = account_page("Something else", "  abc123");
    assert_eq!(extract_user_hash(&dom), Err(UserError::LackOfUserHash));
}

#[test]
fn absent_container_is_missing_container() {
    let dom = Dom { nodes: vec![tag("body", vec![], vec![])] };
    assert_eq!(extract_user_hash(&dom), Err(UserError::LackOfContainer));
}

#[test]
fn childless_container_has_no_label_match() {
    let dom = Dom { nodes: vec![tag("div", vec![attr("class", "notesmall")], vec![])] };
    assert_eq!(extract_user_hash(&dom), Err(UserError::LackOfUserHash));
}

#[test]
fn class_list_membership_counts_every_token() {
    let dom = Dom {
        nodes: vec![
            tag("div", vec![attr("class", "big notesmall shaded")], vec![1]),
            tag("p", vec![], vec![2, 3]),
            text("Your userhash is:"),
            text(" deadbeef"),
        ],
    };
    assert_eq!(extract_user_hash(&dom), Ok("deadbeef".to_string()));
}

#[test]
fn require_node_rejects_out_of_range_index() {
    let dom = Dom { nodes: vec![text("x")] };
    assert!(dom.require_node(0).is_ok());
    assert_eq!(dom.require_node(1).err(), Some(ExtractError::MissingNode));
}

#[test]
fn collect_attribute_values_first_name_wins() {
    let dom = Dom {
        nodes: vec![
            tag("video", vec![attr("src", "a"), attr("href", "b")], vec![]),
            tag("a", vec![attr("href", "c")], vec![]),
        ],
    };
    let idxs = vec![0usize, 1usize];
    let names = vec!["src".to_string(), "href".to_string()];
    assert_eq!(
        dom.collect_attribute_values(&idxs, &names),
        Ok(vec!["a".to_string(), "c".to_string()])
    );
}

#[test]
fn collect_attribute_values_missing_both_fails() {
    let dom = Dom { nodes: vec![tag("img", vec![attr("alt", "x")], vec![])] };
    let idxs = vec![0usize];
    let names = vec!["src".to_string(), "href".to_string()];
    assert_eq!(
        dom.collect_attribute_values(&idxs, &names),
        Err(ExtractError::MissingAttribute)
    );
}

#[test]
fn collect_attribute_values_undecodable_fails() {
    let dom = Dom {
        nodes: vec![tag(
            "img",
            vec![Attr { name: "src".to_string(), data: AttrData::Undecodable }],
            vec![],
        )],
    };
    let idxs = vec![0usize];
    let names = vec!["src".to_string(), "href".to_string()];
    assert_eq!(
        dom.collect_attribute_values(&idxs, &names),
        Err(ExtractError::InvalidEncoding)
    );
}

#[test]
fn collect_attribute_values_skips_valueless_and_text_nodes() {
    let dom = Dom {
        nodes: vec![
            tag("img", vec![Attr { name: "src".to_string(), data: AttrData::Valueless }], vec![]),
            text("plain"),
            tag("img", vec![attr("src", "kept")], vec![]),
        ],
    };
    let idxs = vec![0usize, 1usize, 2usize];
    let names = vec!["src".to_string(), "href".to_string()];
    assert_eq!(dom.collect_attribute_values(&idxs, &names), Ok(vec!["kept".to_string()]));
}

#[test]
fn inner_text_concatenates_the_subtree() {
    let dom = Dom {
        nodes: vec![
            tag("p", vec![], vec![1, 2]),
            text("Hello "),
            tag("b", vec![], vec![3]),
            text("world"),
        ],
    };
    assert_eq!(dom.inner_text(0), "Hello world".to_string());
}

#[test]
fn find_by_class_returns_first_match_in_document_order() {
    let dom = Dom {
        nodes: vec![
            tag("div", vec![attr("class", "other")], vec![]),
            tag("div", vec![attr("class", "pick")], vec![]),
            tag("div", vec![attr("class", "pick")], vec![]),
        ],
    };
    assert_eq!(dom.find_by_class("pick"), Ok(1));
    assert_eq!(dom.find_by_class("absent").err(), Some(ExtractError::MissingContainer));
}

#[test]
fn find_by_id_is_exact_match() {
    let dom = Dom {
        nodes: vec![
            tag("div", vec![attr("id", "results2")], vec![]),
            tag("div", vec![attr("id", "results")], vec![]),
        ],
    };
    assert_eq!(dom.find_by_id("results"), Ok(1));
}

#[test]
fn select_all_matches_tag_and_class_in_order() {
    let dom = Dom {
        nodes: vec![
            tag("span", vec![attr("class", "textHolder")], vec![]),
            tag("div", vec![attr("class", "textHolder")], vec![]),
            tag("span", vec![attr("class", "other")], vec![]),
            tag("span", vec![attr("class", "textHolder")], vec![]),
        ],
    };
    assert_eq!(dom.select_all("span", "textHolder"), vec![0usize, 3usize]);
    let none: Vec<usize> = vec![];
    assert_eq!(dom.select_all("span", "absent"), none);
}

#[test]
fn label_search_scans_nested_descendants() {
    // The labeled row sits two levels below the container.
    let dom = Dom {
        nodes: vec![
            tag("div", vec![attr("class", "notesmall")], vec![1]),
            tag("section", vec![], vec![2]),
            tag("p", vec![], vec![3, 4]),
            text("Your userhash is:"),
            text("  cafef00d"),
        ],
    };
    assert_eq!(extract_user_hash(&dom), Ok("cafef00d".to_string()));
}

#[test]
fn first_matching_label_wins() {
    let dom = Dom {
        nodes: vec![
            tag("div", vec![attr("class", "notesmall")], vec![1, 4]),
            tag("p", vec![], vec![2, 3]),
            text("Your userhash is:"),
            text(" first"),
            tag("p", vec![], vec![5, 6]),
            text("Your userhash is:"),
            text(" second"),
        ],
    };
    assert_eq!(extract_user_hash(&dom), Ok("first".to_string()));
}

#[test]
fn label_value_trim_covers_unicode_whitespace() {
    // A no-break space or an em space leads the value: trimmed, as the
    // trimming rule covers Unicode whitespace, not just ASCII.
    let dom = account_page("Your userhash is:", "\u{00A0}\u{2003} abc123");
    assert_eq!(extract_user_hash(&dom), Ok("abc123".to_string()));
}

#[test]
fn class_tokens_split_on_any_ascii_whitespace() {
    let dom = Dom {
        nodes: vec![
            tag("div", vec![attr("class", "big\tnotesmall\nshaded")], vec![1]),
            tag("p", vec![], vec![2, 3]),
            text("Your userhash is:"),
            text(" f00d"),
        ],
    };
    assert_eq!(extract_user_hash(&dom), Ok("f00d".to_string()));
}

#[test]
fn class_token_must_stand_alone() {
    // "notesmall" inside a longer word is no class-list member.
    let dom = Dom {
        nodes: vec![
            tag("div", vec![attr("class", "notesmaller")], vec![1]),
            tag("p", vec![], vec![2, 3]),
            text("Your userhash is:"),
            text(" nope"),
        ],
    };
    assert_eq!(extract_user_hash(&dom), Err(UserError::LackOfContainer));
}
