//! Filling the explorer's page templates: the substitutions into a template,
//! and the page body around a piece of HTML with the style sheets inlined.

use vstd::prelude::*;
use crate::objects::entry_views;
use crate::text::replace_string;
use crate::text::replace_text;

verus! {

/// `base` with each substitution applied in turn: every occurrence of the
/// first text of a pair replaced by the second.
pub open spec fn replace_all(base: Seq<char>, subs: Seq<(Seq<char>, Seq<char>)>) -> Seq<char>
    decreases subs.len(),
{
    if subs.len() == 0 {
        base
    } else {
        replace_text(replace_all(base, subs.drop_last()), subs.last().0, subs.last().1)
    }
}

/// `base` with the substitutions applied in order.
pub fn do_replaces(base: &String, subs: &Vec<(String, String)>) -> (r: String)
    ensures
        r@ == replace_all(base@, entry_views(subs@)),
{
    let ghost sv = entry_views(subs@);
    let mut buffer = base.clone();
    let mut i: usize = 0;
    while i < subs.len()
        invariant
            0 <= i <= subs.len(),
            sv == entry_views(subs@),
            buffer@ == replace_all(base@, sv.take(i as int)),
        decreases subs.len() - i,
    {
        let (key, value) = &subs[i];
        buffer = replace_string(buffer.as_str(), key.as_str(), value.as_str());
        proof {
            assert(sv.take(i + 1).drop_last() =~= sv.take(i as int));
        }
        i += 1;
    }
    proof {
        assert(sv.take(i as int) =~= sv);
    }
    buffer
}

/// The component whose template reads `raw_body`, with the substitutions applied.
pub fn render_component(raw_body: &str, subs: &Vec<(String, String)>) -> (r: String)
    ensures
        r@ == replace_all(raw_body@, entry_views(subs@)),
{
    let base = String::from_str(raw_body);
    do_replaces(&base, subs)
}

/// The page: `{body_html}` in the template replaced by the body, then
/// `/* css here */` by the style sheets.
pub open spec fn page_text(body_html: Seq<char>, raw_body: Seq<char>, css: Seq<char>) -> Seq<char> {
    replace_text(replace_text(raw_body, "{body_html}"@, body_html), "/* css here */"@, css)
}

/// The page around `body_html`, from the template `raw_body` and the style
/// sheets `css`.
pub fn render_against_custom_body(body_html: &str, raw_body: &str, css: &str) -> (r: String)
    ensures
        r@ == page_text(body_html@, raw_body@, css@),
{
    let mut subs: Vec<(String, String)> = Vec::new();
    subs.push((String::from_str("{body_html}"), String::from_str(body_html)));
    subs.push((String::from_str("/* css here */"), String::from_str(css)));
    let base = String::from_str(raw_body);
    let r = do_replaces(&base, &subs);
    proof {
        let sv = entry_views(subs@);
        assert(sv.drop_last().drop_last() =~= Seq::<(Seq<char>, Seq<char>)>::empty());
        assert(sv.drop_last().last() == ("{body_html}"@, body_html@));
        assert(sv.last() == ("/* css here */"@, css@));
        assert(replace_all(raw_body@, sv.drop_last().drop_last()) == raw_body@);
        assert(replace_all(raw_body@, sv.drop_last()) == replace_text(
            raw_body@,
            "{body_html}"@,
            body_html@,
        ));
        assert(replace_all(raw_body@, sv) == page_text(body_html@, raw_body@, css@));
    }
    r
}

/// The application page around `body_html`, from the application template
/// `raw_app` and the style sheets `css`.
pub fn render_app_body(body_html: &str, raw_app: &str, css: &str) -> (r: String)
    ensures
        r@ == page_text(body_html@, raw_app@, css@),
{
    render_against_custom_body(body_html, raw_app, css)
}

/// The contents of the files, each followed by a blank line.
pub open spec fn concatenated(contents: Seq<Seq<char>>) -> Seq<char>
    decreases contents.len(),
{
    if contents.len() == 0 {
        Seq::empty()
    } else {
        concatenated(contents.drop_last()) + contents.last() + "\n\n"@
    }
}

/// The contents of the files, each followed by a blank line.
pub fn concatenate_file_contents(contents: &Vec<String>) -> (r: String)
    ensures
        r@ == concatenated(crate::text::views_of(contents@)),
{
    let ghost cv = crate::text::views_of(contents@);
    let mut r = String::new();
    let mut i: usize = 0;
    while i < contents.len()
        invariant
            0 <= i <= contents.len(),
            cv == crate::text::views_of(contents@),
            r@ == concatenated(cv.take(i as int)),
        decreases contents.len() - i,
    {
        r.append(contents[i].as_str());
        r.append("\n\n");
        proof {
            assert(cv.take(i + 1).drop_last() =~= cv.take(i as int));
        }
        i += 1;
    }
    proof {
        assert(cv.take(i as int) =~= cv);
    }
    r
}

} // verus!
