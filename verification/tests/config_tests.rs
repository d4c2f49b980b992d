use wiki_builder::config::{
    data_dir, html_dir, output_dir, page_output_path, record_page_path, resolve_path,
    set_base_path, template_glob, templates_dir, BasePath,
};

#[test]
fn default_base_is_parent_directory() {
    let c = BasePath::new();
    assert_eq!(data_dir(&c), "../site/data");
    assert_eq!(templates_dir(&c), "../site/templates");
    assert_eq!(html_dir(&c), "../site/html");
    assert_eq!(output_dir(&c), "../out");
}

#[test]
fn first_base_wins() {
    let mut c = BasePath::new();
    set_base_path(&mut c, "/ws");
    assert_eq!(data_dir(&c), "/ws/site/data");
    set_base_path(&mut c, "/other");
    assert_eq!(output_dir(&c), "/ws/out");
    assert_eq!(resolve_path(&c, "x"), "/ws/x");
}

#[test]
fn base_with_trailing_slash() {
    let mut c = BasePath::new();
    set_base_path(&mut c, "/ws/");
    assert_eq!(html_dir(&c), "/ws/site/html");
}

#[test]
fn output_locations() {
    assert_eq!(template_glob("site/templates"), "site/templates/**/*.html");
    assert_eq!(record_page_path("out", "items", "my-item"), "out/items/my-item.html");
    assert_eq!(page_output_path("out", "my-page"), "out/my-page.html");
    assert_eq!(page_output_path("out", "guides/v1.2"), "out/guides/v1.html");
}
