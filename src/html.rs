//! HTML text: escaping and the index fragment rendered from a configuration.
use crate::svc::{DocSection, DocSectionLink, Entry};
use vstd::prelude::*;
use vstd::std_specs::iter::IteratorSpec;

verus! {

/// What one character becomes in escaped HTML text.
pub open spec fn escaped_char(c: char) -> Seq<char> {
    if c == '&' {
        "&amp;"@
    } else if c == '<' {
        "&lt;"@
    } else if c == '>' {
        "&gt;"@
    } else if c == '"' {
        "&quot;"@
    } else if c == '\'' {
        "&#39;"@
    } else {
        seq![c]
    }
}

/// `s` escaped for use in HTML text and in quoted attribute values.
pub open spec fn escaped(s: Seq<char>) -> Seq<char>
    decreases s.len(),
{
    if s.len() == 0 {
        Seq::empty()
    } else {
        escaped(s.drop_last()) + escaped_char(s.last())
    }
}

/// One line of the index: a link to a doc section.
pub open spec fn section_html(d: DocSection) -> Seq<char> {
    match d.link {
        DocSectionLink::External { url } => "<div class=\"doc\"><a href=\""@ + escaped(url@)
            + "\" target=\"_blank\" rel=\"noreferer noopener\">"@ + escaped(d.title@)
            + "</a></div>"@,
        DocSectionLink::Local => "<div class=\"doc\"><a href=\"/"@ + escaped(d.section@) + "\">"@
            + escaped(d.title@) + "</a></div>"@,
    }
}

/// The lines of a sequence of doc sections, in order.
pub open spec fn sections_html(s: Seq<DocSection>) -> Seq<char>
    decreases s.len(),
{
    if s.len() == 0 {
        Seq::empty()
    } else {
        sections_html(s.drop_last()) + section_html(s.last())
    }
}

/// The opening of an entry's block: its id, title and description.
pub open spec fn entry_head_html(e: Entry) -> Seq<char> {
    "<div class=\"entry\" id=\""@ + escaped(e.id@) + "\"><h2>"@ + escaped(e.title@) + "</h2><p>"@
        + escaped(e.description@) + "</p>"@
}

/// An entry's block: its head, then its doc sections in order.
pub open spec fn entry_html(e: Entry) -> Seq<char> {
    entry_head_html(e) + sections_html(e.docs@) + "</div>"@
}

/// The blocks of a sequence of entries, in order.
pub open spec fn entries_html(s: Seq<Entry>) -> Seq<char>
    decreases s.len(),
{
    if s.len() == 0 {
        Seq::empty()
    } else {
        entries_html(s.drop_last()) + entry_html(s.last())
    }
}

/// Relies on `String::push`: appends one character.
#[verifier::external_body]
fn push_char(out: &mut String, c: char)
    ensures
        final(out)@ == old(out)@.push(c),
{
    out.push(c);
}

/// Appends `s` escaped to `out`.
pub fn push_escaped(out: &mut String, s: &str)
    ensures
        final(out)@ == old(out)@ + escaped(s@),
{
    broadcast use vstd::string::axiom_spec_iter, vstd::string::next_postcondition;

    let ghost start = out@;
    let mut chars = s.chars();
    let ghost mut done: Seq<char> = Seq::empty();
    assert(s@ =~= done + chars.remaining());
    loop
        invariant
            chars.obeys_prophetic_iter_laws(),
            s@ == done + chars.remaining(),
            out@ == start + escaped(done),
            chars.decrease() is Some,
        ensures
            out@ == start + escaped(s@),
        decreases chars.decrease()->0,
    {
        match chars.next() {
            Some(c) => {
                if c == '&' {
                    out.append("&amp;");
                } else if c == '<' {
                    out.append("&lt;");
                } else if c == '>' {
                    out.append("&gt;");
                } else if c == '"' {
                    out.append("&quot;");
                } else if c == '\'' {
                    out.append("&#39;");
                } else {
                    push_char(out, c);
                }
                proof {
                    assert(done.push(c).drop_last() =~= done);
                    assert(s@ =~= done.push(c) + chars.remaining());
                    assert(out@ =~= start + escaped(done.push(c)));
                    done = done.push(c);
                }
            },
            None => {
                assert(done =~= s@);
                break ;
            },
        }
    }
}

/// Appends the index line of `d` to `out`.
pub fn push_section(out: &mut String, d: &DocSection)
    ensures
        final(out)@ == old(out)@ + section_html(*d),
{
    let ghost start = out@;
    match &d.link {
        DocSectionLink::External { url } => {
            out.append("<div class=\"doc\"><a href=\"");
            push_escaped(out, url.as_str());
            out.append("\" target=\"_blank\" rel=\"noreferer noopener\">");
            push_escaped(out, d.title.as_str());
            out.append("</a></div>");
        },
        DocSectionLink::Local => {
            out.append("<div class=\"doc\"><a href=\"/");
            push_escaped(out, d.section.as_str());
            out.append("\">");
            push_escaped(out, d.title.as_str());
            out.append("</a></div>");
        },
    }
    assert(out@ =~= start + section_html(*d));
}

/// Appends the block of `e` to `out`.
pub fn push_entry(out: &mut String, e: &Entry)
    ensures
        final(out)@ == old(out)@ + entry_html(*e),
{
    let ghost start = out@;
    out.append("<div class=\"entry\" id=\"");
    push_escaped(out, e.id.as_str());
    out.append("\"><h2>");
    push_escaped(out, e.title.as_str());
    out.append("</h2><p>");
    push_escaped(out, e.description.as_str());
    out.append("</p>");
    assert(out@ =~= start + entry_head_html(*e));
    let mut i: usize = 0;
    while i < e.docs.len()
        invariant
            i <= e.docs@.len(),
            out@ == start + entry_head_html(*e) + sections_html(e.docs@.take(i as int)),
        decreases e.docs@.len() - i,
    {
        push_section(out, &e.docs[i]);
        assert(e.docs@.take(i + 1).drop_last() =~= e.docs@.take(i as int));
        assert(out@ =~= start + entry_head_html(*e) + sections_html(e.docs@.take(i + 1)));
        i += 1;
    }
    assert(e.docs@.take(i as int) =~= e.docs@);
    out.append("</div>");
    assert(out@ =~= start + entry_html(*e));
}

/// The index fragment for a sequence of entries.
pub fn render_entries(entries: &Vec<Entry>) -> (r: String)
    ensures
        r@ == entries_html(entries@),
{
    let mut out = String::new();
    let mut i: usize = 0;
    assert(out@ =~= entries_html(entries@.take(0)));
    while i < entries.len()
        invariant
            i <= entries@.len(),
            out@ == entries_html(entries@.take(i as int)),
        decreases entries@.len() - i,
    {
        push_entry(&mut out, &entries[i]);
        assert(entries@.take(i + 1).drop_last() =~= entries@.take(i as int));
        i += 1;
    }
    assert(entries@.take(i as int) =~= entries@);
    out
}

/// The fixed opening of the index page, up to the header text.
pub const PAGE_HEAD: &'static str = r#"<!DOCTYPE html>
<html lang="en">
<head>
  <meta charset="UTF-8" />
  <meta name="viewport" content="width=device-width, initial-scale=1.0" />
  <title>API DOCS</title>
  <meta name="theme-color" content="\#000000" />
  <meta name="description" content="API documentation" />
  <style>
    a {
        display: block;
        color: blue !important;
        padding: 5px 0px;
        margin: 0px;
        text-decoration: none;
        font-size: 0.9em;
        font-weight: normal;
    }
    a:hover {
        text-decoration: underline;
    }
    .doc a:before {
        content: " 📄 ";
    }
    h1 {
        text-align: center;
        color: #404040;
    }
    h2, h3, h4 {
        color: #606060;
        margin-bottom: 0px;
    }
    * {
        font-family: 'Ubuntu', 'Segoe-UI', sans-serif;
    }
    p {
        color: #899;
        margin-top: 0px;
        margin-bottom: 2px;
        font-size: 0.75em;
    }
    .entry {
        width: 320px;
        margin: 0px auto;
    }
    footer {
        text-align: center;
        font-size: 0.8rem;
        color: #999;
        position: fixed;
        bottom: 0px;
        width: 100%;
        padding-bottom: 10px;
    }
  </style>
</head>
<body>
<h1>"#;

/// The whole index page: the fixed opening, the header, the fragment and
/// the footer.
pub open spec fn page_html_spec(header: Seq<char>, footer: Seq<char>, fragment: Seq<char>) -> Seq<
    char,
> {
    PAGE_HEAD@ + header + "</h1>"@ + fragment + "<footer>"@ + footer + "</footer></body></html>"@
}

/// Wraps an index fragment in the page, with the given header and footer.
pub fn page_html(header: &str, footer: &str, fragment: &str) -> (r: String)
    ensures
        r@ == page_html_spec(header@, footer@, fragment@),
{
    let mut out = String::from_str(PAGE_HEAD);
    out.append(header);
    out.append("</h1>");
    out.append(fragment);
    out.append("<footer>");
    out.append(footer);
    out.append("</footer></body></html>");
    assert(out@ =~= page_html_spec(header@, footer@, fragment@));
    out
}

} // verus!
