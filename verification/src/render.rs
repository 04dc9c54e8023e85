//! The first page templates of the explorer: a page body substituted into
//! the application template.

use vstd::prelude::*;
use crate::objects::entry_views;
use crate::render_utils::replace_all;
use crate::text::replace_text;

verus! {

/// `base` with the substitutions applied in order.
pub fn do_replaces(base: &String, subs: &Vec<(String, String)>) -> (r: String)
    ensures
        r@ == replace_all(base@, entry_views(subs@)),
{
    crate::render_utils::do_replaces(base, subs)
}

/// The component whose template reads `raw_body`, with the substitutions applied.
pub fn render_component(raw_body: &str, subs: &Vec<(String, String)>) -> (r: String)
    ensures
        r@ == replace_all(raw_body@, entry_views(subs@)),
{
    crate::render_utils::render_component(raw_body, subs)
}

/// The application template `raw_app` with `{body}` replaced by the body;
/// the window title is not used.
pub fn render_app_body(body_html: &str, window_title: &str, raw_app: &str) -> (r: String)
    ensures
        r@ == replace_text(raw_app@, "{body}"@, body_html@),
{
    let mut subs: Vec<(String, String)> = Vec::new();
    subs.push((String::from_str("{body}"), String::from_str(body_html)));
    let base = String::from_str(raw_app);
    let r = do_replaces(&base, &subs);
    proof {
        let sv = entry_views(subs@);
        assert(sv.drop_last() =~= Seq::<(Seq<char>, Seq<char>)>::empty());
        assert(replace_all(raw_app@, sv.drop_last()) == raw_app@);
        assert(sv.last() == ("{body}"@, body_html@));
    }
    r
}

/// The same page as `render_app_body`.
pub fn render_app_body_unsafe(body_html: &str, window_title: &str, raw_app: &str) -> (r: String)
    ensures
        r@ == replace_text(raw_app@, "{body}"@, body_html@),
{
    render_app_body(body_html, window_title, raw_app)
}

/// The index page: the application page with an empty body.
pub fn internal_index(raw_app: &str, css: &str) -> (r: String)
    ensures
        r@ == crate::render_utils::page_text(""@, raw_app@, css@),
{
    crate::render_utils::render_app_body("", raw_app, css)
}

} // verus!
