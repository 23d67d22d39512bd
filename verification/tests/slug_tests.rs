use tmtbook::slug::clean_doc_slug;

#[test]
fn cleans_simple_ascii_slugs() {
    assert_eq!(clean_doc_slug("hello world.tmt"), "hello-world");
    assert_eq!(clean_doc_slug("notes/my note.tm"), "notes/my-note");
    assert_eq!(clean_doc_slug("deep/nested/path.tmt"), "deep/nested/path");
}

#[test]
fn preserves_japanese_characters() {
    assert_eq!(clean_doc_slug("読書 メモ.tmt"), "読書-メモ");
    assert_eq!(clean_doc_slug("知識/Rust 入門.tmt"), "知識/Rust-入門");
    assert_eq!(clean_doc_slug("カタカナ/ひらがな/漢字.tmt"), "カタカナ/ひらがな/漢字");
    assert_eq!(clean_doc_slug("リーダーシップ.tmt"), "リーダーシップ");
}

#[test]
fn sanitizes_disallowed_symbols() {
    assert_eq!(clean_doc_slug("Rust (基礎).tmt"), "Rust-基礎");
    assert_eq!(clean_doc_slug("note {test}.tmt"), "note-test");
    assert_eq!(clean_doc_slug("array[0].tmt"), "array-0");
    assert_eq!(clean_doc_slug("what?!.tmt"), "what");
    assert_eq!(clean_doc_slug("foo & bar.tmt"), "foo-bar");
    assert_eq!(clean_doc_slug("version 1.0.tmt"), "version-1-0");
}

#[test]
fn strips_emoji_from_slug() {
    assert_eq!(clean_doc_slug("Rust 🦀 メモ.tmt"), "Rust-メモ");
    assert_eq!(clean_doc_slug("30-39 📚 読書/本.tmt"), "30-39-読書/本");
    assert_eq!(clean_doc_slug("happy 😀.tmt"), "happy");
}

#[test]
fn cleans_emoticons_and_collapses_dashes() {
    assert_eq!(clean_doc_slug("(o_O).tmt"), "o_O");
    assert_eq!(clean_doc_slug("foo---bar.tmt"), "foo-bar");
    assert_eq!(clean_doc_slug("  spaced  out  .tmt"), "spaced-out");
    assert_eq!(clean_doc_slug("30-39 - Knowledge.tmt"), "30-39-Knowledge");
}

#[test]
fn falls_back_to_hash_for_purely_symbolic_or_emoji_names() {
    let slug1 = clean_doc_slug("😀.tmt");
    assert!(slug1.starts_with("doc-"));
    assert_eq!(slug1.len(), 12);

    let slug2 = clean_doc_slug("(^_^).tmt");
    assert!(slug2.starts_with("doc-"));

    assert_eq!(clean_doc_slug("😀.tmt"), slug1);
}

#[test]
fn preserves_inner_underscores() {
    assert_eq!(clean_doc_slug("my_snake_case_note.tmt"), "my_snake_case_note");
    assert_eq!(clean_doc_slug("_hidden_name_.tmt"), "hidden_name");
}
