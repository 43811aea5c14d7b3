//! The global Help dialog: its three inner tabs and the rendering of
//! their Markdown documents to HTML.
use vstd::prelude::*;

verus! {

/// Inner tab of the Help dialog.
#[derive(Clone, Copy, PartialEq, Eq, Structural, Debug)]
pub enum HelpInner {
    UserGuide,
    Reference,
    Tutorial,
}

impl HelpInner {
    /// The Markdown document of this tab, chosen from the three documents.
    pub fn document<'a>(self, user_guide: &'a str, reference: &'a str, tutorial: &'a str) -> (md: &'a str)
        ensures
            md == (match self {
                HelpInner::UserGuide => user_guide,
                HelpInner::Reference => reference,
                HelpInner::Tutorial => tutorial,
            }),
    {
        match self {
            HelpInner::UserGuide => user_guide,
            HelpInner::Reference => reference,
            HelpInner::Tutorial => tutorial,
        }
    }

    /// Style class of this tab's button when `active` is the open tab.
    pub fn tab_class(self, active: HelpInner) -> (class: &'static str)
        ensures
            class@ == (if self == active { "help-tab active"@ } else { "help-tab"@ }),
    {
        if self == active {
            "help-tab active"
        } else {
            "help-tab"
        }
    }
}

/// Option bit of pulldown-cmark that turns on GitHub tables.
pub const MD_TABLES: u32 = 2;

/// Option bit of pulldown-cmark that turns on `~~strikethrough~~`.
pub const MD_STRIKETHROUGH: u32 = 8;

/// The HTML that pulldown-cmark renders for the Markdown `src` with the
/// extension options `options`.
pub uninterp spec fn commonmark_html(src: Seq<char>, options: u32) -> Seq<char>;

/// `pulldown_cmark::html::push_html` over `Parser::new_ext(src,
/// Options::from_bits_truncate(options))`, into an empty string. Claimed:
/// the result is `commonmark_html` of the text and the option bits;
/// nothing is claimed of its contents.
#[verifier::external_body]
fn markdown_html(src: &str, options: u32) -> (html: String)
    ensures
        html@ == commonmark_html(src@, options),
{
    let parser = pulldown_cmark::Parser::new_ext(src, pulldown_cmark::Options::from_bits_truncate(options));
    let mut out = String::new();
    pulldown_cmark::html::push_html(&mut out, parser);
    out
}

/// Renders CommonMark with tables and strikethrough to HTML.
pub fn render_markdown(src: &str) -> (html: String)
    ensures
        html@ == commonmark_html(src@, MD_TABLES | MD_STRIKETHROUGH),
{
    markdown_html(src, MD_TABLES | MD_STRIKETHROUGH)
}

} // verus!
