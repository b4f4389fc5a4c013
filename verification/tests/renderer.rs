use narou_bridge::markup::{
    build_og_tags, collect_image_markup_candidates, cover_image_url, escape_html,
    escape_html_attr, format_canonical_url, format_optional_url, get_cover_image_file_name,
    inline_image_base, is_cover_field, is_standalone_markup, normalize_newlines,
    push_unique_candidate, reader_url, render_image, render_inline_markup, render_markup_line,
    render_rich_text, render_text_block, selected, selected_usize, split_hashed_name,
    ImageAsset, ImageTable,
};

fn cover_images(name: &str) -> ImageTable {
    let mut images = ImageTable::new();
    images.insert(
        name.to_string(),
        ImageAsset {
            hash: "abc1234567".to_string(),
            ext: "jpg".to_string(),
        },
    );
    images
}

#[test]
fn render_image_uses_logical_name_lookup() {
    let images = cover_images("pixiv_n123_cover.jpg");
    let html = render_image("pixiv_n123_cover.jpg", &images, "../../images");
    assert_eq!(
        html,
        r#"<img src="../../images/abc1234567.jpg" alt="pixiv_n123_cover.jpg">"#
    );
}

#[test]
fn render_image_resolves_legacy_hex_hashed_filename() {
    let images = cover_images("pixiv_n123_cover.jpg");
    let html = render_image("abc1234567.jpg", &images, "../../images");
    assert_eq!(html, r#"<img src="../../images/abc1234567.jpg" alt="">"#);
}

#[test]
fn render_image_resolves_base64url_style_hashed_filename() {
    let hashed_name = "0123456789012345678901234567890123456789012";
    let mut images = ImageTable::new();
    images.insert(
        "pixiv_n123_page1.jpg".to_string(),
        ImageAsset {
            hash: hashed_name.to_string(),
            ext: "jpg".to_string(),
        },
    );

    let html = render_image(&format!("{hashed_name}.jpg"), &images, "../../images");
    assert_eq!(
        html,
        format!(r#"<img src="../../images/{hashed_name}.jpg" alt="">"#)
    );
}

#[test]
fn render_image_preserves_valid_unregistered_content_hash() {
    let images = ImageTable::new();
    let hashed_name = "F2sqzifMxxNCurmu7wAvjp69qcDNJn7JOCuvA-23xwk.png";

    let html = render_image(hashed_name, &images, "https://images.example");

    assert_eq!(
        html,
        format!(r#"<img src="https://images.example/{hashed_name}" alt="">"#)
    );
}

#[test]
fn render_image_rejects_non_image_hash_extension() {
    let images = ImageTable::new();
    let hashed_name = "F2sqzifMxxNCurmu7wAvjp69qcDNJn7JOCuvA-23xwk.html";

    let html = render_image(hashed_name, &images, "https://images.example");

    assert_eq!(html, format!("<p><code>{hashed_name}</code></p>"));
}

#[test]
fn render_image_falls_back_for_unknown_name() {
    let images = ImageTable::new();
    let html = render_image("not-an-image", &images, "../../images");
    assert_eq!(html, "<p><code>not-an-image</code></p>");
}

#[test]
fn render_image_prefers_the_later_registration() {
    let mut images = cover_images("a.png");
    images.insert(
        "a.png".to_string(),
        ImageAsset {
            hash: "ffff000011".to_string(),
            ext: "png".to_string(),
        },
    );
    assert_eq!(
        render_image("a.png", &images, "/i"),
        r#"<img src="/i/ffff000011.png" alt="a.png">"#
    );
}

#[test]
fn cover_lookup_does_not_borrow_another_works_cover() {
    let images = cover_images("pixiv_n999_cover.jpg");
    assert_eq!(get_cover_image_file_name("pixiv", "n123", &images), None);
}

#[test]
fn cover_lookup_finds_the_works_own_cover() {
    let images = cover_images("pixiv_n123_cover.png");
    assert_eq!(
        get_cover_image_file_name("pixiv", "n123", &images),
        Some("abc1234567.jpg".to_string())
    );
    assert_eq!(
        cover_image_url("https://host/", "", "pixiv", "n123", &images),
        "https://host/images/abc1234567.jpg"
    );
    assert_eq!(
        cover_image_url("https://host/", " https://img.example/ ", "pixiv", "n123", &images),
        "https://img.example/abc1234567.jpg"
    );
    assert_eq!(cover_image_url("https://host", "", "pixiv", "n999", &images), "");
}

#[test]
fn render_inline_markup_uses_canonical_ruby_markup() {
    let html = render_inline_markup(
        "[ruby:<漢字>(かな)]",
        "narou",
        "n123",
        &ImageTable::new(),
        "../../images",
    );
    assert_eq!(html, "<ruby>漢字<rp>(</rp><rt>かな</rt><rp>)</rp></ruby>");
}

#[test]
fn render_inline_markup_escapes_text_and_renders_jumps() {
    let html = render_inline_markup(
        "a<b [jump:12] & [image](x) [ruby:<open",
        "narou",
        "n1",
        &ImageTable::new(),
        "/img",
    );
    assert_eq!(
        html,
        "a&lt;b <a href=\"#L12\">12</a> &amp; <p><code>x</code></p> [ruby:&lt;open"
    );
}

#[test]
fn render_markup_line_numbers_the_paragraph() {
    let mut id = 7usize;
    let html = render_markup_line(
        "[ruby:<本>(ほん))]",
        "narou",
        "n1",
        &ImageTable::new(),
        "/img",
        "L",
        &mut id,
    );
    assert_eq!(
        html,
        "<p id=\"L7\"><ruby>本<rp>(</rp><rt>ほん</rt><rp>)</rp></ruby></p>"
    );
    assert_eq!(id, 8);
    let jump = render_markup_line("[jump:3]", "narou", "n1", &ImageTable::new(), "/img", "L", &mut id);
    assert_eq!(jump, "<p id=\"L8\"><a href=\"#L3\">3</a></p>");
    assert_eq!(id, 9);
}

#[test]
fn render_text_block_gives_one_paragraph_per_line() {
    let mut id = 1usize;
    let html = render_text_block("one\r\n\r\ntwo  ", "narou", "n1", &ImageTable::new(), "/img", "L", &mut id);
    assert_eq!(
        html,
        "<p id=\"L1\">one</p>\n<p id=\"L2\"><br/></p>\n<p id=\"L3\">two</p>"
    );
    assert_eq!(id, 4);
}

#[test]
fn render_rich_text_splits_blocks_markup_and_page_breaks() {
    let mut id = 1usize;
    let html = render_rich_text(
        "[image](pic)\nfirst\nsecond\n[newpage]\n[jump:1]\nlast\n",
        "narou",
        "n1",
        &ImageTable::new(),
        "/img",
        "L",
        &mut id,
    );
    assert_eq!(
        html,
        "<p id=\"L1\"><p><code>pic</code></p></p>\n<p id=\"L2\">first</p>\n<p id=\"L3\">second</p>\n<hr class=\"page-break\">\n<p id=\"L4\"><a href=\"#L1\">1</a></p>\n<p id=\"L5\">last</p>"
    );
    assert_eq!(id, 6);
}

#[test]
fn escape_html_replaces_markup_characters() {
    assert_eq!(escape_html("<a href=\"x\">&'"), "&lt;a href=&quot;x&quot;&gt;&amp;'");
    assert_eq!(escape_html_attr("it's"), "it&#39;s");
}

#[test]
fn urls_drop_trailing_slashes_of_the_host() {
    assert_eq!(
        reader_url("https://host//", "narou", "n1"),
        "https://host/reader/?site=narou&nid=n1"
    );
    assert_eq!(reader_url("", "narou", "n1"), "/reader/?site=narou&nid=n1");
    assert_eq!(format_canonical_url("https://host/", "/a"), "https://host/a");
    assert_eq!(format_optional_url("https://host/", ""), "");
    assert_eq!(inline_image_base("  ", true), "../../images");
    assert_eq!(inline_image_base("  ", false), "../../../images");
    assert_eq!(inline_image_base(" https://img/ ", false), "https://img");
}

#[test]
fn og_tags_skip_empty_values() {
    assert_eq!(
        build_og_tags("T", "", "article", "", ""),
        "  <meta property=\"og:title\" content=\"T\">\n  <meta property=\"og:type\" content=\"article\">"
    );
    assert_eq!(build_og_tags("", "", "", "", ""), "");
}

#[test]
fn small_helpers_behave() {
    assert!(is_standalone_markup("[jump:1]"));
    assert!(!is_standalone_markup("text"));
    assert_eq!(normalize_newlines("a\r\nb"), "a\nb");
    assert!(is_cover_field("thumbnailImage"));
    assert!(!is_cover_field("title"));
    assert_eq!(selected(Some("a"), Some("a")), " selected");
    assert_eq!(selected(None, Some("a")), "");
    assert_eq!(selected_usize(3, 4), "");
    assert_eq!(
        split_hashed_name("abc1234567.PNG"),
        Some(("abc1234567".to_string(), "PNG".to_string()))
    );
}

#[test]
fn image_candidates_are_collected_once_in_order() {
    let mut candidates = Vec::new();
    push_unique_candidate(&mut candidates, "");
    push_unique_candidate(&mut candidates, "a.png");
    collect_image_markup_candidates("x [image]( b.png ) [image](a.png) [image](c.png", &mut candidates);
    assert_eq!(candidates, vec!["a.png".to_string(), "b.png".to_string()]);
}
