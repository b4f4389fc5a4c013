use narou_bridge::pages::{render_empty_site_index, render_site_buttons, render_site_links};

#[test]
fn empty_site_index_is_valid_html() {
    let html = render_empty_site_index("pixiv");
    assert!(html.contains("<!DOCTYPE html>"));
    assert!(html.contains("<title>pixiv index</title>"));
    assert!(html.contains("作品がまだありません"));
    assert!(html.contains("href=\"/\""));
}

#[test]
fn empty_site_index_escapes_the_site_name() {
    let html = render_empty_site_index("<x>");
    assert!(html.contains("<title>&lt;x&gt; index</title>"));
    assert!(html.contains("body { font-family"));
}

#[test]
fn site_buttons_and_links_mention_each_site() {
    let buttons = render_site_buttons(&["pixiv".to_string(), "narou".to_string()]);
    assert!(buttons.contains("/pixiv/index.html"));
    assert!(buttons.contains("submitUpdate('pixiv')"));
    assert!(buttons.contains("submitRepair('narou')"));
    let links = render_site_links(&["pixiv".to_string()]);
    assert!(links.contains("<a class=\"site-card\" href=\"/pixiv/index.html\">"));
    assert!(render_site_buttons(&[]).contains("サイトが登録されていません。"));
    assert!(render_site_links(&[]).contains("サイトがありません"));
}

#[test]
fn root_bootstrap_mentions_sites() {
    let root_template = "<form action=\"{post_url}\"></form>{site_buttons}<nav>{site_links}</nav>";
    let html = root_template
        .replace("{post_url}", "/api/")
        .replace(
            "{site_buttons}",
            &narou_bridge::pages::render_site_buttons(&["pixiv".to_string()]),
        )
        .replace("{site_links}", &narou_bridge::pages::render_site_links(&["pixiv".to_string()]));
    assert!(html.contains("/pixiv/index.html"));
    assert!(html.contains("submitUpdate('pixiv')"));
}
