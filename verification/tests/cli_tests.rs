use tmtbook::cli::{init_template, init_title};

#[test]
fn a_new_book_is_named_after_its_directory_unless_told_otherwise() {
    assert_eq!(init_title("/home/me/garden", None), "garden");
    assert_eq!(init_title("/home/me/garden", Some("Notes".to_string())), "Notes");
    assert_eq!(init_title("/", None), "My Book");
}

#[test]
fn the_starting_configuration_names_the_book_twice() {
    let t = init_template("Garden");
    assert!(t.starts_with("[book]\ntitle = \"Garden\"\nlang = \"ja\"\n"));
    assert!(t.contains("rail_title = \"Garden\""));
    assert!(t.contains("format = \"birthday\""));
    assert!(t.ends_with("exclude = [\n  \"00-09 System/01 Apps\"\n]\n"));
}

#[test]
fn the_current_directory_has_no_name_of_its_own() {
    assert_eq!(init_title(".", None), "My Book");
    assert_eq!(init_title("notes/.", None), "notes");
    assert_eq!(init_title("notes/..", None), "My Book");
}
