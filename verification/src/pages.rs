//! The static pages written at start-up: the list of sites on the home
//! page and the placeholder index of a site without works.
use vstd::prelude::*;
use crate::markup::{escape, push_escaped};
use crate::text::{chars_of, join, join_str, push_all, push_str, string_from_chars, strings_view, views};

verus! {

/// The placeholder index page of a site that has no works yet.
pub open spec fn empty_site_index_html(site: Seq<char>) -> Seq<char> {
    {
        let site_escaped = escape(site);
        "<!DOCTYPE html>\n<html lang=\"ja\">\n<head>\n  <meta charset=\"utf-8\">\n  <meta name=\"viewport\" content=\"width=device-width, initial-scale=1\">\n  <title>"@
        + site_escaped
        + " index</title>\n  <style>\n    body { font-family: system-ui, sans-serif; margin: 0; background: #f6f7fb; color: #1f2933; }\n    header { padding: 24px 20px; background: #111827; color: #fff; }\n    main { max-width: 1100px; margin: 0 auto; padding: 20px; }\n    .empty-message { background: #fff; border-radius: 14px; padding: 32px; text-align: center; box-shadow: 0 1px 4px rgba(0,0,0,.08); }\n    .empty-message h2 { margin-top: 0; color: #6b7280; }\n    .empty-message p { color: #9ca3af; }\n    .empty-message a { color: #2563eb; text-decoration: none; }\n  </style>\n</head>\n<body>\n  <header>\n    <h1>"@
        + site_escaped
        + "</h1>\n    <p>0 works · <a href=\"/\">home</a></p>\n  </header>\n  <main>\n    <div class=\"empty-message\">\n      <h2>作品がまだありません</h2>\n      <p>このサイトに作品をダウンロードまたはインポートすると、ここに表示されます。</p>\n      <p><a href=\"/\">トップページに戻る</a></p>\n    </div>\n  </main>\n</body>\n</html>"@
    }
}

fn push_empty_site_index(out: &mut Vec<char>, e: &[char])
    ensures
        final(out)@ == old(out)@ + ({
            let site_escaped = e@;
            "<!DOCTYPE html>\n<html lang=\"ja\">\n<head>\n  <meta charset=\"utf-8\">\n  <meta name=\"viewport\" content=\"width=device-width, initial-scale=1\">\n  <title>"@
        + site_escaped
        + " index</title>\n  <style>\n    body { font-family: system-ui, sans-serif; margin: 0; background: #f6f7fb; color: #1f2933; }\n    header { padding: 24px 20px; background: #111827; color: #fff; }\n    main { max-width: 1100px; margin: 0 auto; padding: 20px; }\n    .empty-message { background: #fff; border-radius: 14px; padding: 32px; text-align: center; box-shadow: 0 1px 4px rgba(0,0,0,.08); }\n    .empty-message h2 { margin-top: 0; color: #6b7280; }\n    .empty-message p { color: #9ca3af; }\n    .empty-message a { color: #2563eb; text-decoration: none; }\n  </style>\n</head>\n<body>\n  <header>\n    <h1>"@
        + site_escaped
        + "</h1>\n    <p>0 works · <a href=\"/\">home</a></p>\n  </header>\n  <main>\n    <div class=\"empty-message\">\n      <h2>作品がまだありません</h2>\n      <p>このサイトに作品をダウンロードまたはインポートすると、ここに表示されます。</p>\n      <p><a href=\"/\">トップページに戻る</a></p>\n    </div>\n  </main>\n</body>\n</html>"@
        }),
{
    let ghost start = out@;
    push_str(out, "<!DOCTYPE html>\n<html lang=\"ja\">\n<head>\n  <meta charset=\"utf-8\">\n  <meta name=\"viewport\" content=\"width=device-width, initial-scale=1\">\n  <title>");
    push_all(out, e);
    push_str(out, " index</title>\n  <style>\n    body { font-family: system-ui, sans-serif; margin: 0; background: #f6f7fb; color: #1f2933; }\n    header { padding: 24px 20px; background: #111827; color: #fff; }\n    main { max-width: 1100px; margin: 0 auto; padding: 20px; }\n    .empty-message { background: #fff; border-radius: 14px; padding: 32px; text-align: center; box-shadow: 0 1px 4px rgba(0,0,0,.08); }\n    .empty-message h2 { margin-top: 0; color: #6b7280; }\n    .empty-message p { color: #9ca3af; }\n    .empty-message a { color: #2563eb; text-decoration: none; }\n  </style>\n</head>\n<body>\n  <header>\n    <h1>");
    push_all(out, e);
    push_str(out, "</h1>\n    <p>0 works · <a href=\"/\">home</a></p>\n  </header>\n  <main>\n    <div class=\"empty-message\">\n      <h2>作品がまだありません</h2>\n      <p>このサイトに作品をダウンロードまたはインポートすると、ここに表示されます。</p>\n      <p><a href=\"/\">トップページに戻る</a></p>\n    </div>\n  </main>\n</body>\n</html>");
    assert(out@ =~= start + ({
        let site_escaped = e@;
        "<!DOCTYPE html>\n<html lang=\"ja\">\n<head>\n  <meta charset=\"utf-8\">\n  <meta name=\"viewport\" content=\"width=device-width, initial-scale=1\">\n  <title>"@
        + site_escaped
        + " index</title>\n  <style>\n    body { font-family: system-ui, sans-serif; margin: 0; background: #f6f7fb; color: #1f2933; }\n    header { padding: 24px 20px; background: #111827; color: #fff; }\n    main { max-width: 1100px; margin: 0 auto; padding: 20px; }\n    .empty-message { background: #fff; border-radius: 14px; padding: 32px; text-align: center; box-shadow: 0 1px 4px rgba(0,0,0,.08); }\n    .empty-message h2 { margin-top: 0; color: #6b7280; }\n    .empty-message p { color: #9ca3af; }\n    .empty-message a { color: #2563eb; text-decoration: none; }\n  </style>\n</head>\n<body>\n  <header>\n    <h1>"@
        + site_escaped
        + "</h1>\n    <p>0 works · <a href=\"/\">home</a></p>\n  </header>\n  <main>\n    <div class=\"empty-message\">\n      <h2>作品がまだありません</h2>\n      <p>このサイトに作品をダウンロードまたはインポートすると、ここに表示されます。</p>\n      <p><a href=\"/\">トップページに戻る</a></p>\n    </div>\n  </main>\n</body>\n</html>"@
    }));
}

pub fn render_empty_site_index(site: &str) -> (r: String)
    ensures
        r@ == empty_site_index_html(site@),
{
    let s = chars_of(site);
    let mut e: Vec<char> = Vec::new();
    push_escaped(&mut e, s.as_slice());
    let mut out: Vec<char> = Vec::new();
    push_empty_site_index(&mut out, e.as_slice());
    assert(out@ =~= empty_site_index_html(site@));
    string_from_chars(out.as_slice())
}

/// The home page card of one site, with its action buttons.
pub open spec fn site_button_html(site: Seq<char>) -> Seq<char> {
    {
        let site_escaped = escape(site);
        "<div class=\"card\" style=\"margin: 0 0 0.75rem 0;\">\n  <div class=\"card-body\">\n    <div style=\"display:flex;justify-content:space-between;align-items:center;gap:1rem;flex-wrap:wrap;\">\n      <a class=\"site-card\" href=\"/"@
        + site_escaped
        + "/index.html\" style=\"flex:1;min-width:220px;\">\n        <span class=\"site-name\">"@
        + site_escaped
        + "</span>\n        <span class=\"site-arrow\">→</span>\n      </a>\n      <div class=\"btn-group\" style=\"margin:0;\">\n        <button onclick=\"submitUpdate('"@
        + site_escaped
        + "')\" class=\"btn btn-primary\">更新</button>\n        <button onclick=\"submitConvert('"@
        + site_escaped
        + "')\" class=\"btn btn-success\">変換</button>\n        <button onclick=\"submitReDownload('"@
        + site_escaped
        + "')\" class=\"btn btn-danger\">再DL</button>\n        <button onclick=\"submitRepair('"@
        + site_escaped
        + "')\" class=\"btn btn-warning\">修復</button>\n      </div>\n    </div>\n  </div>\n</div>"@
    }
}

/// The home page link to one site.
pub open spec fn site_link_html(site: Seq<char>) -> Seq<char> {
    {
        let site_escaped = escape(site);
        "<a class=\"site-card\" href=\"/"@
        + site_escaped
        + "/index.html\">\n  <span class=\"site-name\">"@
        + site_escaped
        + "</span>\n  <span class=\"site-arrow\">→</span>\n</a>"@
    }
}

fn push_site_button(out: &mut Vec<char>, e: &[char])
    ensures
        final(out)@ == old(out)@ + ({
            let site_escaped = e@;
            "<div class=\"card\" style=\"margin: 0 0 0.75rem 0;\">\n  <div class=\"card-body\">\n    <div style=\"display:flex;justify-content:space-between;align-items:center;gap:1rem;flex-wrap:wrap;\">\n      <a class=\"site-card\" href=\"/"@
        + site_escaped
        + "/index.html\" style=\"flex:1;min-width:220px;\">\n        <span class=\"site-name\">"@
        + site_escaped
        + "</span>\n        <span class=\"site-arrow\">→</span>\n      </a>\n      <div class=\"btn-group\" style=\"margin:0;\">\n        <button onclick=\"submitUpdate('"@
        + site_escaped
        + "')\" class=\"btn btn-primary\">更新</button>\n        <button onclick=\"submitConvert('"@
        + site_escaped
        + "')\" class=\"btn btn-success\">変換</button>\n        <button onclick=\"submitReDownload('"@
        + site_escaped
        + "')\" class=\"btn btn-danger\">再DL</button>\n        <button onclick=\"submitRepair('"@
        + site_escaped
        + "')\" class=\"btn btn-warning\">修復</button>\n      </div>\n    </div>\n  </div>\n</div>"@
        }),
{
    let ghost start = out@;
    push_str(out, "<div class=\"card\" style=\"margin: 0 0 0.75rem 0;\">\n  <div class=\"card-body\">\n    <div style=\"display:flex;justify-content:space-between;align-items:center;gap:1rem;flex-wrap:wrap;\">\n      <a class=\"site-card\" href=\"/");
    push_all(out, e);
    push_str(out, "/index.html\" style=\"flex:1;min-width:220px;\">\n        <span class=\"site-name\">");
    push_all(out, e);
    push_str(out, "</span>\n        <span class=\"site-arrow\">→</span>\n      </a>\n      <div class=\"btn-group\" style=\"margin:0;\">\n        <button onclick=\"submitUpdate('");
    push_all(out, e);
    push_str(out, "')\" class=\"btn btn-primary\">更新</button>\n        <button onclick=\"submitConvert('");
    push_all(out, e);
    push_str(out, "')\" class=\"btn btn-success\">変換</button>\n        <button onclick=\"submitReDownload('");
    push_all(out, e);
    push_str(out, "')\" class=\"btn btn-danger\">再DL</button>\n        <button onclick=\"submitRepair('");
    push_all(out, e);
    push_str(out, "')\" class=\"btn btn-warning\">修復</button>\n      </div>\n    </div>\n  </div>\n</div>");
    assert(out@ =~= start + ({
        let site_escaped = e@;
        "<div class=\"card\" style=\"margin: 0 0 0.75rem 0;\">\n  <div class=\"card-body\">\n    <div style=\"display:flex;justify-content:space-between;align-items:center;gap:1rem;flex-wrap:wrap;\">\n      <a class=\"site-card\" href=\"/"@
        + site_escaped
        + "/index.html\" style=\"flex:1;min-width:220px;\">\n        <span class=\"site-name\">"@
        + site_escaped
        + "</span>\n        <span class=\"site-arrow\">→</span>\n      </a>\n      <div class=\"btn-group\" style=\"margin:0;\">\n        <button onclick=\"submitUpdate('"@
        + site_escaped
        + "')\" class=\"btn btn-primary\">更新</button>\n        <button onclick=\"submitConvert('"@
        + site_escaped
        + "')\" class=\"btn btn-success\">変換</button>\n        <button onclick=\"submitReDownload('"@
        + site_escaped
        + "')\" class=\"btn btn-danger\">再DL</button>\n        <button onclick=\"submitRepair('"@
        + site_escaped
        + "')\" class=\"btn btn-warning\">修復</button>\n      </div>\n    </div>\n  </div>\n</div>"@
    }));
}

fn push_site_link(out: &mut Vec<char>, e: &[char])
    ensures
        final(out)@ == old(out)@ + ({
            let site_escaped = e@;
            "<a class=\"site-card\" href=\"/"@
        + site_escaped
        + "/index.html\">\n  <span class=\"site-name\">"@
        + site_escaped
        + "</span>\n  <span class=\"site-arrow\">→</span>\n</a>"@
        }),
{
    let ghost start = out@;
    push_str(out, "<a class=\"site-card\" href=\"/");
    push_all(out, e);
    push_str(out, "/index.html\">\n  <span class=\"site-name\">");
    push_all(out, e);
    push_str(out, "</span>\n  <span class=\"site-arrow\">→</span>\n</a>");
    assert(out@ =~= start + ({
        let site_escaped = e@;
        "<a class=\"site-card\" href=\"/"@
        + site_escaped
        + "/index.html\">\n  <span class=\"site-name\">"@
        + site_escaped
        + "</span>\n  <span class=\"site-arrow\">→</span>\n</a>"@
    }));
}

/// The site cards of the home page, one per site, or a notice when there
/// are none.
pub open spec fn site_buttons_html(sites: Seq<Seq<char>>) -> Seq<char> {
    if sites.len() == 0 {
        "<div class=\"card\" style=\"margin: 0;\"><div class=\"card-body\">サイトが登録されていません。</div></div>"@
    } else {
        join(sites.map_values(|s: Seq<char>| site_button_html(s)), "\n"@)
    }
}

/// The site links of the home page, one per site, or a notice when there
/// are none.
pub open spec fn site_links_html(sites: Seq<Seq<char>>) -> Seq<char> {
    if sites.len() == 0 {
        "<div class=\"site-card\"><span class=\"site-name\">サイトがありません</span></div>"@
    } else {
        join(sites.map_values(|s: Seq<char>| site_link_html(s)), "\n"@)
    }
}

pub fn render_site_buttons(sites: &[String]) -> (r: String)
    ensures
        r@ == site_buttons_html(strings_view(sites@)),
{
    if sites.len() == 0 {
        return crate::text::owned("<div class=\"card\" style=\"margin: 0;\"><div class=\"card-body\">サイトが登録されていません。</div></div>");
    }
    let ghost want = strings_view(sites@).map_values(|s: Seq<char>| site_button_html(s));
    let mut parts: Vec<Vec<char>> = Vec::new();
    let mut i: usize = 0;
    while i < sites.len()
        invariant
            i <= sites.len(),
            want == strings_view(sites@).map_values(|s: Seq<char>| site_button_html(s)),
            views(parts@) == want.take(i as int),
        decreases sites.len() - i,
    {
        let s = chars_of(sites[i].as_str());
        let mut e: Vec<char> = Vec::new();
        push_escaped(&mut e, s.as_slice());
        let mut p: Vec<char> = Vec::new();
        push_site_button(&mut p, e.as_slice());
        assert(p@ =~= want[i as int]);
        let ghost prev = parts@;
        parts.push(p);
        assert(views(parts@) =~= views(prev).push(want[i as int]));
        assert(want.take(i + 1) =~= want.take(i as int).push(want[i as int]));
        i = i + 1;
    }
    assert(want.take(i as int) =~= want);
    let out = join_str(&parts, "\n");
    string_from_chars(out.as_slice())
}

pub fn render_site_links(sites: &[String]) -> (r: String)
    ensures
        r@ == site_links_html(strings_view(sites@)),
{
    if sites.len() == 0 {
        return crate::text::owned("<div class=\"site-card\"><span class=\"site-name\">サイトがありません</span></div>");
    }
    let ghost want = strings_view(sites@).map_values(|s: Seq<char>| site_link_html(s));
    let mut parts: Vec<Vec<char>> = Vec::new();
    let mut i: usize = 0;
    while i < sites.len()
        invariant
            i <= sites.len(),
            want == strings_view(sites@).map_values(|s: Seq<char>| site_link_html(s)),
            views(parts@) == want.take(i as int),
        decreases sites.len() - i,
    {
        let s = chars_of(sites[i].as_str());
        let mut e: Vec<char> = Vec::new();
        push_escaped(&mut e, s.as_slice());
        let mut p: Vec<char> = Vec::new();
        push_site_link(&mut p, e.as_slice());
        assert(p@ =~= want[i as int]);
        let ghost prev = parts@;
        parts.push(p);
        assert(views(parts@) =~= views(prev).push(want[i as int]));
        assert(want.take(i + 1) =~= want.take(i as int).push(want[i as int]));
        i = i + 1;
    }
    assert(want.take(i as int) =~= want);
    let out = join_str(&parts, "\n");
    string_from_chars(out.as_slice())
}

} // verus!
