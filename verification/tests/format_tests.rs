use tmtbook::meta::format::format_chip_value;
use tmtbook::meta::icon::format_text_icon;

#[test]
fn meta_birthday_format_shortens_an_iso_date() {
    assert_eq!(format_chip_value("2001-04-09", Some("birthday"), None), "4月9日");
    assert_eq!(format_chip_value("2001-04-09T00:00:00", Some("birthday"), None), "4月9日");
    assert_eq!(format_chip_value("2001-04-09", Some("birthday"), Some("en")), "April 9");
    assert_eq!(format_chip_value("2001-12-25", Some("birthday"), Some("en-US")), "December 25");
}

#[test]
fn meta_birthday_format_leaves_unparsable_values_alone() {
    assert_eq!(format_chip_value("春ごろ", Some("birthday"), None), "春ごろ");
    assert_eq!(format_chip_value("2001-04-09", None, None), "2001-04-09");
}

#[test]
fn format_birthday_format_shortens_an_iso_date() {
    assert_eq!(format_chip_value("2001-04-09", Some("birthday"), None), "4月9日");
    assert_eq!(format_chip_value("2001-04-09T00:00:00", Some("birthday"), None), "4月9日");
    assert_eq!(format_chip_value("2001-04-09", Some("birthday"), Some("en")), "April 9");
    assert_eq!(format_chip_value("2001-12-25", Some("birthday"), Some("en-US")), "December 25");
}

#[test]
fn format_birthday_format_leaves_unparsable_values_alone() {
    assert_eq!(format_chip_value("春ごろ", Some("birthday"), None), "春ごろ");
    assert_eq!(format_chip_value("2001-04-09", None, None), "2001-04-09");
}

#[test]
fn document_birthday_format_shortens_an_iso_date() {
    assert_eq!(format_chip_value("2001-04-09", Some("birthday"), None), "4月9日");
    assert_eq!(format_chip_value("2001-04-09T00:00:00", Some("birthday"), None), "4月9日");
}

#[test]
fn document_birthday_format_leaves_unparsable_values_alone() {
    assert_eq!(format_chip_value("春ごろ", Some("birthday"), None), "春ごろ");
    assert_eq!(format_chip_value("2001-04-09", None, None), "2001-04-09");
}

#[test]
fn meta_format_text_icon_handles_different_lengths() {
    assert_eq!(format_text_icon("🎂"), r#"<span class="avatar-text avatar-text-1">🎂</span>"#);
    assert_eq!(
        format_text_icon("🐾🩵"),
        r#"<span class="avatar-text avatar-grid avatar-grid-2"><span class="avatar-cell">🐾</span><span class="avatar-cell">🩵</span></span>"#
    );
    assert_eq!(
        format_text_icon("🐾🩵🔥"),
        r#"<span class="avatar-text avatar-grid avatar-grid-3"><span class="avatar-cell">🐾</span><span class="avatar-cell">🩵</span><span class="avatar-cell">🔥</span></span>"#
    );
    assert_eq!(
        format_text_icon("🐾🩵🦀🔥"),
        r#"<span class="avatar-text avatar-grid avatar-grid-4"><span class="avatar-cell">🐾</span><span class="avatar-cell">🩵</span><span class="avatar-cell">🦀</span><span class="avatar-cell">🔥</span></span>"#
    );
    assert_eq!(
        format_text_icon("Design"),
        r#"<span class="avatar-text avatar-text-2 avatar-initials" title="Design">De</span>"#
    );
}

#[test]
fn icon_format_text_icon_handles_different_lengths() {
    assert_eq!(format_text_icon("🎂"), r#"<span class="avatar-text avatar-text-1">🎂</span>"#);
    assert_eq!(
        format_text_icon("🐾🩵"),
        r#"<span class="avatar-text avatar-grid avatar-grid-2"><span class="avatar-cell">🐾</span><span class="avatar-cell">🩵</span></span>"#
    );
    assert_eq!(
        format_text_icon("🐾🩵🔥"),
        r#"<span class="avatar-text avatar-grid avatar-grid-3"><span class="avatar-cell">🐾</span><span class="avatar-cell">🩵</span><span class="avatar-cell">🔥</span></span>"#
    );
    assert_eq!(
        format_text_icon("🐾🩵🦀🔥"),
        r#"<span class="avatar-text avatar-grid avatar-grid-4"><span class="avatar-cell">🐾</span><span class="avatar-cell">🩵</span><span class="avatar-cell">🦀</span><span class="avatar-cell">🔥</span></span>"#
    );
    assert_eq!(
        format_text_icon("Design"),
        r#"<span class="avatar-text avatar-text-2 avatar-initials" title="Design">De</span>"#
    );
}
