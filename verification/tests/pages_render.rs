use narou_bridge::listing::{work_summary_query, QueryParam};
use narou_bridge::markup::{ImageAsset, ImageTable};
use narou_bridge::site_index::{
    clamp_site_index_page, format_site_index_date, normalize_site_index_options,
    render_initial_site_head, render_initial_site_rows, render_page_link, render_site_index,
    site_index_filters, site_index_offset, total_pages, SiteIndexRenderOptions, SiteListEntry,
};
use narou_bridge::site_index::site_index_page;
use narou_bridge::tasks::{WorkListFilters, WorkListSort};
use narou_bridge::work_pages::{
    episode_page, episode_sort_key, find_episode_for_route, render_episode_index_content,
    render_info_content, render_novel_page, render_work_info, render_work_root_html,
    sort_episodes, work_index_page, NovelPage, RawEpisode, RawWork,
};

const TEMPLATE: &str = "<title>{title}</title>{extra_head}|{header_title}|{back_url}|{nav_links}|{body}";

fn sample_work(serialization: &str) -> RawWork {
    RawWork {
        title: "Example Title".to_string(),
        url: "https://example.invalid/n123".to_string(),
        author: "Example Author".to_string(),
        caption: "Example Caption".to_string(),
        total_characters: 3,
        serialization: serialization.to_string(),
        create_date: "2025-01-01T00:00:00Z".to_string(),
        update_date: "2025-01-01T00:00:00Z".to_string(),
        ..RawWork::default()
    }
}

fn sample_episode(id: &str) -> RawEpisode {
    RawEpisode {
        id: id.to_string(),
        title: format!("Episode {id}"),
        text: "abc".to_string(),
        create_date: "2025-01-01T00:00:00Z".to_string(),
        update_date: "not a date".to_string(),
        ..RawEpisode::default()
    }
}

#[test]
fn novel_page_fills_placeholders_in_order() {
    let page = NovelPage {
        title: "a<b".to_string(),
        extra_head: "<meta>".to_string(),
        body: "<p>x</p>".to_string(),
        back_url: "../".to_string(),
        header_title: "H".to_string(),
        nav_links: "<a>".to_string(),
    };
    assert_eq!(
        render_novel_page(TEMPLATE, &page),
        "<title>a&lt;b</title><meta>|H|../|<a>|<p>x</p>"
    );
}

#[test]
fn episode_page_of_a_serial_links_the_reader_at_the_episode() {
    let work = sample_work("連載中");
    let episode = RawEpisode {
        introduction: "まえ".to_string(),
        postscript: "".to_string(),
        ..sample_episode("1")
    };
    let page = episode_page("narou", "n123", &work, &episode, "https://host/", "", &ImageTable::new());
    assert_eq!(page.title, "Episode 1 - Example Title");
    assert_eq!(page.header_title, "Episode 1");
    assert_eq!(
        page.nav_links,
        "<a href=\"../info/index.html\" class=\"header-nav-link\">作品情報</a><a href=\"https://host/reader/?site=narou&amp;nid=n123&amp;eid=1\" class=\"header-nav-link\">簡易リーダー</a>"
    );
    assert!(page.body.starts_with("<p class=\"novel_subtitle\">Episode 1</p>\n<div class=\"js-novel-text p-novel__text p-novel__text--preface\"><p id=\"Lp1\">まえ</p></div>"));
    assert!(page.body.contains("<div class=\"js-novel-text p-novel__text\"><p id=\"L1\">abc</p></div>\n\n<script"));
    assert!(page.extra_head.contains("<link rel=\"canonical\" href=\"https://host/narou/n123/1/index.html\">"));
    assert!(page.extra_head.ends_with("img { display: block; }\n        </style>"));
}

#[test]
fn short_story_root_shows_its_episode() {
    let work = sample_work("短編");
    let episodes = vec![("1".to_string(), sample_episode("1"))];
    let html = render_work_root_html(TEMPLATE, "narou", "n123", &work, &episodes, "", "", &ImageTable::new());
    assert!(html.contains("<p class=\"novel_title\">Example Title</p>"));
    assert!(html.contains("|Example Title|"));
    assert!(html.contains("<a href=\"./info/index.html\""));
}

#[test]
fn render_work_index_includes_canonical_and_og_image() {
    let work = sample_work("連載中");
    let mut images = ImageTable::new();
    images.insert(
        "narou_n123_cover.jpg".to_string(),
        ImageAsset { hash: "abc1234567".to_string(), ext: "jpg".to_string() },
    );
    let episodes = vec![("1".to_string(), sample_episode("1"))];
    let page = work_index_page("narou", "n123", &work, &episodes, "https://example.com", "", &images);
    assert!(page.extra_head.contains("<link rel=\"canonical\" href=\"https://example.com/narou/n123/index.html\">"));
    assert!(page.extra_head.contains("<meta property=\"og:image\" content=\"https://example.com/images/abc1234567.jpg\">"));
    assert!(page.body.contains("<a href=\"./1/index.html\" class=\"p-eplist__subtitle\">\nEpisode 1\n</a>"));
}

#[test]
fn render_work_index_uses_img_url_override_for_og_image() {
    let work = sample_work("連載中");
    let mut images = ImageTable::new();
    images.insert(
        "narou_n123_cover.jpg".to_string(),
        ImageAsset { hash: "abc1234567".to_string(), ext: "jpg".to_string() },
    );
    let page = work_index_page("narou", "n123", &work, &[], "https://example.com", "https://img.example/", &images);
    assert!(page.extra_head.contains("<meta property=\"og:image\" content=\"https://img.example/abc1234567.jpg\">"));
}

#[test]
fn episode_list_groups_by_chapter_and_keeps_unparsed_dates() {
    let mut a = sample_episode("1");
    a.chapter = Some("第一章".to_string());
    let mut b = sample_episode("2");
    b.chapter = Some("第一章".to_string());
    let mut c = sample_episode("3");
    c.chapter = Some("第二章".to_string());
    let html = render_episode_index_content(&[
        ("1".to_string(), a),
        ("2".to_string(), b),
        ("3".to_string(), c),
    ]);
    assert_eq!(html.matches("p-eplist__chapter-title").count(), 2);
    assert!(html.starts_with("<div class=\"p-eplist\">\n<div class=\"p-eplist__chapter-title\">第一章</div>"));
    assert!(html.contains("2025/01/01 00:00"));
    assert!(html.contains("<span title=\"not a date 改稿\">"));
    assert!(html.ends_with("</div>\n</div>"));
}

#[test]
fn render_work_info_uses_structured_table_without_raw_dump() {
    let work = sample_work("短編");
    let html = render_work_info(TEMPLATE, "narou", "n123", &work, 1, "", "", &ImageTable::new());
    assert!(html.contains("<table>"));
    assert!(html.contains("あらすじ"));
    assert!(!html.contains("<pre>"));
    assert!(!html.contains("version:"));
}

#[test]
fn info_content_states_counts_and_dates() {
    let mut work = sample_work("連載中");
    work.all_tags = vec!["a".to_string(), "<b>".to_string()];
    work.author_url = Some("https://author".to_string());
    work.total_characters = -5;
    let html = render_info_content(&work, 12);
    assert!(html.contains("<div><span id=\"noveltype\">連載中</span> 全12エピソード</div>"));
    assert!(html.contains("<td>a &lt;b&gt;</td>"));
    assert!(html.contains("<a href=\"https://author\" target=\"_blank\">Example Author</a>"));
    assert!(html.contains("<tr><th>最新掲載日</th><td>2025年 01月01日 00時00分</td></tr>"));
    assert!(html.contains("<td>-5文字</td>"));
    let empty = render_info_content(&sample_work("短編"), 1);
    assert!(empty.contains("キーワードが設定されていません"));
    assert!(empty.contains("最終更新日"));
}

#[test]
fn episodes_sort_by_number_then_key() {
    assert_eq!(episode_sort_key("-3"), (-3, "-3".to_string()));
    assert_eq!(episode_sort_key("+7"), (7, "+7".to_string()));
    assert_eq!(episode_sort_key("x").0, i64::MAX);
    assert_eq!(episode_sort_key("-+1").0, i64::MAX);
    let sorted = sort_episodes(vec![
        ("10".to_string(), sample_episode("10")),
        ("2".to_string(), sample_episode("2")),
        ("b".to_string(), sample_episode("b")),
        ("a".to_string(), sample_episode("a")),
    ]);
    let keys: Vec<&str> = sorted.iter().map(|(k, _)| k.as_str()).collect();
    assert_eq!(keys, vec!["2", "10", "a", "b"]);
    assert_eq!(find_episode_for_route(&sorted, "10"), Some(1));
    assert_eq!(find_episode_for_route(&sorted, "zz"), None);
}

#[test]
fn listing_query_binds_filters_in_order() {
    let filters = WorkListFilters {
        site: Some(" pixiv ".to_string()),
        search: Some("50%".to_string()),
        serialization: Some("  ".to_string()),
        ..WorkListFilters::default()
    };
    let q = work_summary_query(&filters, 0, 40, WorkListSort::TitleAsc);
    assert_eq!(
        q.count_sql,
        "SELECT COUNT(*) FROM works WHERE site = ? AND (title LIKE ? ESCAPE '\\' OR author LIKE ? ESCAPE '\\' OR work_key LIKE ? ESCAPE '\\')"
    );
    assert_eq!(q.count_params.len(), 4);
    assert_eq!(q.count_params[0], QueryParam::Text("pixiv".to_string()));
    assert_eq!(q.count_params[1], QueryParam::Text("%50\\%%".to_string()));
    assert!(q.page_sql.ends_with("ORDER BY title COLLATE NOCASE ASC, work_key ASC\n                   LIMIT ? OFFSET ?"));
    assert_eq!(q.page_params[4], QueryParam::Integer(1));
    assert_eq!(q.page_params[5], QueryParam::Integer(40));
    let all = work_summary_query(&WorkListFilters::default(), 10, usize::MAX, WorkListSort::UpdatedDesc);
    assert_eq!(all.count_sql, "SELECT COUNT(*) FROM works");
    assert_eq!(all.page_params, vec![QueryParam::Integer(10), QueryParam::Integer(i64::MAX)]);
}

fn options(page: usize, per_page: usize) -> SiteIndexRenderOptions {
    SiteIndexRenderOptions {
        page,
        per_page,
        search: Some("a b".to_string()),
        work_type: Some("novel".to_string()),
        serialization: None,
        sort: WorkListSort::AuthorAsc,
    }
}

#[test]
fn site_index_options_are_normalised_and_paged() {
    let o = normalize_site_index_options(options(0, 7));
    assert_eq!(o.page, 1);
    assert_eq!(o.per_page, 25);
    assert_eq!(normalize_site_index_options(options(3, 50)).per_page, 50);
    assert_eq!(site_index_offset(3, 25), 50);
    assert_eq!(site_index_offset(usize::MAX, 25), usize::MAX);
    assert_eq!(total_pages(0, 25), 1);
    assert_eq!(total_pages(51, 25), 3);
    assert_eq!(total_pages(50, 25), 2);
    let mut o = options(9, 25);
    assert!(clamp_site_index_page(&mut o, 3));
    assert_eq!(o.page, 3);
    assert!(!clamp_site_index_page(&mut o, 3));
    let filters = site_index_filters("pixiv", &o);
    assert_eq!(filters.site.as_deref(), Some("pixiv"));
    assert_eq!(filters.work_type.as_deref(), Some("novel"));
}

#[test]
fn site_index_rows_links_and_page() {
    assert!(render_initial_site_head().starts_with("<tr><th class=\"th-serialization\""));
    assert_eq!(
        render_initial_site_rows(&[]),
        "<tr><td colspan=\"7\">該当する作品はありません。</td></tr>"
    );
    let entry = SiteListEntry {
        title: "T".to_string(),
        author: "A".to_string(),
        author_url: None,
        work_type: "comic".to_string(),
        serialization: "連載中".to_string(),
        all_tags: vec!["x".to_string()],
        create_date: "2025-01-02T03:04:00+09:00".to_string(),
        update_date: "raw".to_string(),
    };
    let rows = render_initial_site_rows(&[("k".to_string(), entry.clone())]);
    assert!(rows.contains("<a href=\"./k/\">T</a>"));
    assert!(rows.contains("漫画"));
    assert!(rows.contains("<span class=\"tag-item\">x</span>"));
    assert!(rows.contains("2025/01/02 03:04"));
    assert!(rows.contains(">raw</td>"));
    assert_eq!(format_site_index_date("nope"), "nope");
    let o = options(2, 25);
    assert_eq!(
        render_page_link(&o, 1, "前へ", false),
        Ok("<span class=\"btn btn-outline\" aria-disabled=\"true\">前へ</span>".to_string())
    );
    assert_eq!(
        render_page_link(&o, 3, "次へ", true),
        Ok("<a class=\"btn btn-outline\" href=\"?page=3&amp;per_page=25&amp;sort=author_asc&amp;search=a+b&amp;type=novel\">次へ</a>".to_string())
    );
    let html = render_site_index(
        "{site_name}|{type_novel_selected}|{sort_author_asc_selected}|{per_page_25_selected}|{page_info}|{previous_page_link}|{next_page_link}",
        "pixiv",
        &o,
        30,
        2,
        &[("k".to_string(), entry)],
    )
    .unwrap();
    assert!(html.starts_with("pixiv| selected| selected| selected|2 / 2（全30件）|<a class=\"btn btn-outline\" href=\"?page=1"));
    assert!(html.ends_with("aria-disabled=\"true\">次へ</span>"));
}

#[test]
fn render_episode_page_does_not_duplicate_introduction_summary() {
    let work = sample_work("短編");
    let episode = RawEpisode {
        introduction: "導入文".to_string(),
        ..sample_episode("1")
    };
    let html = narou_bridge::work_pages::render_episode_page(
        TEMPLATE,
        "narou",
        "n123",
        &work,
        &episode,
        "",
        "",
        &ImageTable::new(),
    );
    assert!(!html.contains(r#"<p class="summary">導入文</p>"#));
    assert!(html.contains(
        r#"<div class="js-novel-text p-novel__text p-novel__text--preface"><p id="Lp1">導入文</p></div>"#
    ));
}

#[test]
fn render_work_index_groups_episodes_by_chapter_title() {
    let work = RawWork {
        total_episodes: 2,
        ..sample_work("連載中")
    };
    let first = RawEpisode {
        chapter: Some("第一章".to_string()),
        ..sample_episode("1")
    };
    let second = RawEpisode {
        chapter: Some("第二章".to_string()),
        text: "def".to_string(),
        create_date: "2025-01-02T00:00:00Z".to_string(),
        update_date: "2025-01-02T00:00:00Z".to_string(),
        ..sample_episode("2")
    };
    let episodes = vec![("1".to_string(), first), ("2".to_string(), second)];
    let html = narou_bridge::work_pages::render_work_index(
        TEMPLATE,
        "narou",
        "n123",
        &work,
        &episodes,
        "",
        "",
        &ImageTable::new(),
    );
    assert!(html.contains(r#"<div class="p-eplist__chapter-title">第一章</div>"#));
    assert!(html.contains(r#"<div class="p-eplist__chapter-title">第二章</div>"#));
}

#[test]
fn site_index_page_clamps_and_counts() {
    let p = site_index_page(options(9, 7), 60);
    assert_eq!(p.options.per_page, 25);
    assert_eq!(p.total_pages, 3);
    assert_eq!(p.options.page, 3);
    assert_eq!(p.offset, 50);
    assert_eq!(p.page_info, "3 / 3（全60件）");
    assert!(p.has_previous);
    assert!(!p.has_next);
    let empty = site_index_page(options(0, 10), 0);
    assert_eq!(empty.total_pages, 1);
    assert_eq!(empty.options.page, 1);
    assert_eq!(empty.offset, 0);
    assert_eq!(empty.page_info, "1 / 1（全0件）");
    assert!(!empty.has_previous && !empty.has_next);
}
