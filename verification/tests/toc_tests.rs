use tmtbook::toc::{build_section_tabs, toc_from_outline, HeadingInfo, TocItem, TocNode};

fn toc(items: &[(u32, &str)]) -> Vec<TocItem> {
    items
        .iter()
        .map(|(level, text)| TocItem { id: text.to_lowercase(), level: *level, text: text.to_string() })
        .collect()
}

fn shape(nodes: &[TocNode]) -> Vec<(String, Vec<String>)> {
    nodes.iter().map(|n| (n.text.clone(), n.children.iter().map(|c| c.text.clone()).collect())).collect()
}

#[test]
fn toc_flat_headings_all_become_roots() {
    let tabs = build_section_tabs(&toc(&[(1, "A"), (1, "B"), (1, "C")]));
    assert_eq!(shape(&tabs), vec![("A".into(), vec![]), ("B".into(), vec![]), ("C".into(), vec![])]);
}

#[test]
fn toc_deeper_headings_nest_under_the_preceding_root() {
    let tabs = build_section_tabs(&toc(&[(1, "A"), (2, "A-1"), (2, "A-2"), (1, "B"), (2, "B-1")]));
    assert_eq!(
        shape(&tabs),
        vec![("A".into(), vec!["A-1".into(), "A-2".into()]), ("B".into(), vec!["B-1".into()])]
    );
}

#[test]
fn toc_third_level_headings_nest_under_their_parent() {
    let tabs = build_section_tabs(&toc(&[(1, "A"), (2, "A-1"), (3, "A-1-a"), (2, "A-2")]));
    assert_eq!(tabs.len(), 1);
    let a1 = &tabs[0].children[0];
    assert_eq!(a1.text, "A-1");
    assert_eq!(a1.children.len(), 1);
    assert_eq!(a1.children[0].text, "A-1-a");
    assert_eq!(tabs[0].children[1].text, "A-2");
}

#[test]
fn toc_documents_without_h1_use_their_shallowest_level_as_roots() {
    let tabs = build_section_tabs(&toc(&[(2, "A"), (3, "A-1"), (2, "B")]));
    assert_eq!(shape(&tabs), vec![("A".into(), vec!["A-1".into()]), ("B".into(), vec![])]);
}

#[test]
fn toc_an_empty_toc_yields_no_tabs() {
    assert!(build_section_tabs(&[]).is_empty());
}

#[test]
fn document_flat_headings_all_become_roots() {
    let tabs = build_section_tabs(&toc(&[(1, "A"), (1, "B"), (1, "C")]));
    assert_eq!(shape(&tabs), vec![("A".into(), vec![]), ("B".into(), vec![]), ("C".into(), vec![])]);
}

#[test]
fn document_deeper_headings_nest_under_the_preceding_root() {
    let tabs = build_section_tabs(&toc(&[(1, "A"), (2, "A-1"), (2, "A-2"), (1, "B"), (2, "B-1")]));
    assert_eq!(
        shape(&tabs),
        vec![("A".into(), vec!["A-1".into(), "A-2".into()]), ("B".into(), vec!["B-1".into()])]
    );
}

#[test]
fn document_third_level_headings_nest_under_their_parent() {
    let tabs = build_section_tabs(&toc(&[(1, "A"), (2, "A-1"), (3, "A-1-a"), (2, "A-2")]));
    assert_eq!(tabs.len(), 1);
    let a1 = &tabs[0].children[0];
    assert_eq!(a1.text, "A-1");
    assert_eq!(a1.children.len(), 1);
    assert_eq!(a1.children[0].text, "A-1-a");
    assert_eq!(tabs[0].children[1].text, "A-2");
}

#[test]
fn document_documents_without_h1_use_their_shallowest_level_as_roots() {
    let tabs = build_section_tabs(&toc(&[(2, "A"), (3, "A-1"), (2, "B")]));
    assert_eq!(shape(&tabs), vec![("A".into(), vec!["A-1".into()]), ("B".into(), vec![])]);
}

#[test]
fn document_an_empty_toc_yields_no_tabs() {
    assert!(build_section_tabs(&[]).is_empty());
}

#[test]
fn a_leaf_node_has_no_peek_levels() {
    let tabs = build_section_tabs(&toc(&[(1, "A")]));
    assert!(tabs[0].peek_levels.is_empty());
}

#[test]
fn a_node_with_only_direct_children_peeks_one_level_deep() {
    let tabs = build_section_tabs(&toc(&[(1, "A"), (2, "A-1"), (2, "A-2")]));
    assert_eq!(tabs[0].peek_levels, vec![2]);
    // The children themselves are leaves.
    assert!(tabs[0].children[0].peek_levels.is_empty());
}

#[test]
fn a_node_with_grandchildren_peeks_two_levels_deep() {
    let tabs = build_section_tabs(&toc(&[(1, "A"), (2, "A-1"), (3, "A-1-a"), (2, "A-2")]));
    assert_eq!(
        tabs[0].peek_levels,
        vec![2, 3],
        "A-1 has a child (A-1-a), so A's slot can hint at both levels below it"
    );
    assert_eq!(tabs[0].children[0].peek_levels, vec![3], "A-1's own slot only ever has H3 children");
    assert!(tabs[0].children[1].peek_levels.is_empty(), "A-2 has no children");
}

#[test]
fn a_level_skip_does_not_duplicate_a_peek_level() {
    // A-1 arrives as H4 before any H3 has, so it lands as a direct child of A
    // alongside the later, properly-nested A-2 (H3, with its own H4 child).
    let tabs = build_section_tabs(&toc(&[(1, "A"), (4, "A-1"), (3, "A-2"), (4, "A-2-i")]));
    assert_eq!(tabs[0].peek_levels, vec![3, 4], "both levels actually present should be hinted at, once each");
}

#[test]
fn a_great_grandchild_level_is_not_promised() {
    // The sticky tabs never render a slot inside an H3 tab, so H4 is not hinted at from A.
    let tabs = build_section_tabs(&toc(&[(1, "A"), (2, "A-1"), (3, "A-1-a"), (4, "A-1-a-i")]));
    assert_eq!(tabs[0].peek_levels, vec![2, 3]);
}

fn heading(level: u8, id: Option<&str>, text: &str) -> HeadingInfo {
    HeadingInfo { level, id: id.map(|s| s.to_string()), text: text.to_string(), number: None }
}

#[test]
fn toc_levels_one_to_four_become_toc_items() {
    let (_, toc) = toc_from_outline(&[heading(1, Some("a"), "A"), heading(4, Some("d"), "D"), heading(5, Some("e"), "E")]);

    let seen: Vec<(u32, &str)> = toc.iter().map(|i| (i.level, i.text.as_str())).collect();
    assert_eq!(seen, vec![(1, "A"), (4, "D")], "H5 is too deep for the tabs");
}

#[test]
fn toc_a_heading_without_an_id_still_lists_but_cannot_be_linked() {
    let (_, toc) = toc_from_outline(&[heading(1, None, "A")]);
    assert_eq!(toc[0].id, "");
}

#[test]
fn toc_the_first_content_h1_is_reported_as_the_title_candidate() {
    let (first_h1, _) = toc_from_outline(&[heading(1, Some("a"), "Real Title"), heading(1, Some("b"), "Later")]);
    assert_eq!(first_h1.as_deref(), Some("Real Title"));
}

#[test]
fn toc_boilerplate_headings_never_become_the_title() {
    let (first_h1, _) = toc_from_outline(&[heading(1, Some("r"), "関連"), heading(1, Some("t"), "本当の見出し")]);
    assert_eq!(first_h1.as_deref(), Some("本当の見出し"));

    for label in ["Related", "references", "FOOTNOTES", "参考文献", "脚注"] {
        let (first_h1, _) = toc_from_outline(&[heading(1, Some("x"), label)]);
        assert_eq!(first_h1, None, "{label} should not be a title");
    }
}

#[test]
fn toc_a_deeper_first_heading_leaves_the_title_unset() {
    let (first_h1, toc) = toc_from_outline(&[heading(2, Some("s"), "Section")]);
    assert_eq!(first_h1, None);
    assert_eq!(toc.len(), 1);
}

#[test]
fn toc_blank_headings_are_dropped() {
    let (first_h1, toc) = toc_from_outline(&[heading(1, Some("a"), "   "), heading(1, Some("b"), "B")]);
    assert_eq!(toc.len(), 1);
    assert_eq!(first_h1.as_deref(), Some("B"));
}

#[test]
fn toc_the_number_label_never_leaks_into_the_toc_text() {
    // The number stays in its own field, so the text is the author's.
    let numbered =
        HeadingInfo { level: 1, id: Some("a".to_string()), text: "Chapter".to_string(), number: Some("1".to_string()) };
    let (_, toc) = toc_from_outline(&[numbered]);
    assert_eq!(toc[0].text, "Chapter");
}

#[test]
fn document_levels_one_to_four_become_toc_items() {
    let (_, toc) = toc_from_outline(&[heading(1, Some("a"), "A"), heading(4, Some("d"), "D"), heading(5, Some("e"), "E")]);

    let seen: Vec<(u32, &str)> = toc.iter().map(|i| (i.level, i.text.as_str())).collect();
    assert_eq!(seen, vec![(1, "A"), (4, "D")], "H5 is too deep for the tabs");
}

#[test]
fn document_a_heading_without_an_id_still_lists_but_cannot_be_linked() {
    let (_, toc) = toc_from_outline(&[heading(1, None, "A")]);
    assert_eq!(toc[0].id, "");
}

#[test]
fn document_the_first_content_h1_is_reported_as_the_title_candidate() {
    let (first_h1, _) = toc_from_outline(&[heading(1, Some("a"), "Real Title"), heading(1, Some("b"), "Later")]);
    assert_eq!(first_h1.as_deref(), Some("Real Title"));
}

#[test]
fn document_boilerplate_headings_never_become_the_title() {
    let (first_h1, _) = toc_from_outline(&[heading(1, Some("r"), "関連"), heading(1, Some("t"), "本当の見出し")]);
    assert_eq!(first_h1.as_deref(), Some("本当の見出し"));

    for label in ["Related", "references", "FOOTNOTES", "参考文献", "脚注"] {
        let (first_h1, _) = toc_from_outline(&[heading(1, Some("x"), label)]);
        assert_eq!(first_h1, None, "{label} should not be a title");
    }
}

#[test]
fn document_a_deeper_first_heading_leaves_the_title_unset() {
    let (first_h1, toc) = toc_from_outline(&[heading(2, Some("s"), "Section")]);
    assert_eq!(first_h1, None);
    assert_eq!(toc.len(), 1);
}

#[test]
fn document_blank_headings_are_dropped() {
    let (first_h1, toc) = toc_from_outline(&[heading(1, Some("a"), "   "), heading(1, Some("b"), "B")]);
    assert_eq!(toc.len(), 1);
    assert_eq!(first_h1.as_deref(), Some("B"));
}

#[test]
fn document_the_number_label_never_leaks_into_the_toc_text() {
    // The number stays in its own field, so the text is the author's.
    let numbered =
        HeadingInfo { level: 1, id: Some("a".to_string()), text: "Chapter".to_string(), number: Some("1".to_string()) };
    let (_, toc) = toc_from_outline(&[numbered]);
    assert_eq!(toc[0].text, "Chapter");
}
