use vstd::prelude::*;

pub mod attributes;
pub mod body;
pub mod document;
pub mod error;
pub mod head;
pub mod header;
pub mod laws;
pub mod node;
pub mod render;
pub mod size;
pub mod tokens;

pub use document::MJMLElement;
pub use error::Error;
use document::{document_from, initial_header, root_scan, tree_known};
use header::FontRegistry;
use node::{is_tag, lemma_node_tokens_shape, lemma_spells_index, node_tokens, parse_node, spells_at, Node};
use size::Size;
use tokens::{lexed, tokenize, toks_view, TokenView, XmlToken};

verus! {

/// Options of a parse.
pub struct Options {
    /// The width that separates mobile from desktop layout, unless the head sets one.
    pub breakpoint: Size,
    /// Registered fonts.
    pub fonts: FontRegistry,
    /// Whether comments are kept in the tree.
    pub keep_comments: bool,
}

impl Options {
    /// A 480px breakpoint, the usual web fonts, comments kept.
    pub fn new() -> (r: Options)
        ensures
            r.breakpoint == Size::Pixel(480),
            r.fonts.fonts@ == header::web_fonts(),
            r.keep_comments,
    {
        Options { breakpoint: Size::Pixel(480), fonts: FontRegistry::with_web_fonts(), keep_comments: true }
    }
}

impl Default for Options {
    fn default() -> (r: Options)
        ensures
            r.breakpoint == Size::Pixel(480),
            r.fonts.fonts@ == header::web_fonts(),
            r.keep_comments,
    {
        Options::new()
    }
}

/// What a document parsed from the tokens `ts` holds: the tokens start with
/// an `mjml` root that they spell, its children can be built, and the
/// document is built from them.
pub open spec fn parsed_from(d: MJMLElement, ts: Seq<TokenView>, o: Options) -> bool {
    exists|root: Node, b: int|
        0 < b <= ts.len() && ts.subrange(0, b) == node_tokens(root) && root.tag@ == "mjml"@ && tree_known(root)
            && root_scan(initial_header(o), root.children@) is Some && document_from(d, root.children@, o)
}

/// Whether the tokens `ts` build a document: they start by spelling an
/// element, and whatever element they spell there is an `mjml` root whose
/// elements all name element kinds and whose children can be built.
pub open spec fn root_builds(ts: Seq<TokenView>, o: Options) -> bool {
    &&& exists|root: Node| spells_at(ts, 0, root)
    &&& forall|root: Node|
        #[trigger] spells_at(ts, 0, root) ==> root.tag@ == "mjml"@ && tree_known(root) && root_scan(initial_header(o), root.children@)
            is Some
}

/// The error that the first token of `ts` causes on its own, if any: a
/// document must start with a start tag, and that tag must be `mjml`.
pub open spec fn root_error(ts: Seq<TokenView>) -> Option<error::ErrorView> {
    if ts.len() == 0 || !(ts[0] is Start) {
        Some(error::ErrorView::InvalidChild)
    } else if ts[0]->Start_0 != "mjml"@ {
        Some(error::ErrorView::UnknownElement(ts[0]->Start_0))
    } else {
        None
    }
}

impl MJMLElement {
    /// Builds a document from a token sequence, which must start with the
    /// `mjml` root.
    pub fn parse_root(toks: &Vec<XmlToken>, options: Options) -> (r: Result<MJMLElement, Error>)
        ensures
            r is Ok ==> parsed_from(r->Ok_0, toks_view(toks@), options),
            root_builds(toks_view(toks@), options) ==> r is Ok,
            toks@.len() == 0 || !(toks@[0] is Start) ==> r is Err && r->Err_0 is InvalidChild,
            toks@.len() > 0 && toks@[0] is Start && toks@[0]->Start_0@ != "mjml"@ ==> r is Err && r->Err_0@
                == error::ErrorView::UnknownElement(toks@[0]->Start_0@),
    {
        let ghost tv = toks_view(toks@);
        if toks.len() == 0 {
            return Err(Error::InvalidChild);
        }
        match &toks[0] {
            XmlToken::Start(t) => {
                if !is_tag(t, "mjml") {
                    proof {
                        assert forall|root: Node| spells_at(tv, 0, root) implies root.tag@ == t@ by {
                            lemma_node_tokens_shape(root);
                            lemma_spells_index(tv, 0, root, 0);
                        }
                    }
                    return Err(Error::UnknownElement(t.clone()));
                }
            },
            _ => {
                proof {
                    assert forall|root: Node| spells_at(tv, 0, root) implies false by {
                        lemma_node_tokens_shape(root);
                        lemma_spells_index(tv, 0, root, 0);
                    }
                }
                return Err(Error::InvalidChild);
            },
        }
        let (root, end) = match parse_node(toks, 0) {
            Ok(x) => x,
            Err(e) => {
                return Err(e);
            },
        };
        proof {
            assert(tv.subrange(0, end as int) =~= toks_view(toks@.subrange(0, end as int)));
            if root_builds(tv, options) {
                let r0 = choose|r0: Node| spells_at(tv, 0, r0);
                assert(spells_at(tv, 0, r0));
                assert(spells_at(tv, 0, root));
            }
        }
        if !is_tag(&root.tag, "mjml") {
            return Err(Error::InvalidChild);
        }
        match MJMLElement::parse(&root, options) {
            Ok(d) => Ok(d),
            Err(e) => Err(e),
        }
    }
}

/// Parses markup into a document.
pub fn parse(input: &str, options: Options) -> (r: Result<MJMLElement, Error>)
    ensures
        lexed(input@) is None ==> r is Err && r->Err_0@ == error::ErrorView::Tokenize,
        r is Ok ==> lexed(input@) is Some && parsed_from(r->Ok_0, lexed(input@)->0, options),
        lexed(input@) is Some && root_builds(lexed(input@)->0, options) ==> r is Ok,
        lexed(input@) is Some && root_error(lexed(input@)->0) is Some ==> r is Err && r->Err_0@ == root_error(
            lexed(input@)->0,
        )->0,
{
    match tokenize(input) {
        Some(toks) => {
            proof {
                if toks@.len() > 0 {
                    assert(toks_view(toks@)[0] == toks@[0]@);
                }
            }
            MJMLElement::parse_root(&toks, options)
        },
        None => Err(Error::Tokenize),
    }
}

/// The title of the document that the markup describes; fails as `parse` does.
pub fn to_title(input: &str, options: Options) -> (r: Result<String, Error>)
    ensures
        lexed(input@) is None ==> r is Err && r->Err_0@ == error::ErrorView::Tokenize,
        lexed(input@) is Some && root_builds(lexed(input@)->0, options) ==> r is Ok,
        lexed(input@) is Some && root_error(lexed(input@)->0) is Some ==> r is Err && r->Err_0@ == root_error(
            lexed(input@)->0,
        )->0,
        r is Ok ==> exists|d: MJMLElement|
            parsed_from(d, lexed(input@)->0, options) && r->Ok_0@ == d.head.header@.title,
{
    match parse(input, options) {
        Ok(d) => Ok(d.get_title()),
        Err(e) => Err(e),
    }
}

/// The preview text of the document that the markup describes; fails as `parse` does.
pub fn to_preview(input: &str, options: Options) -> (r: Result<String, Error>)
    ensures
        lexed(input@) is None ==> r is Err && r->Err_0@ == error::ErrorView::Tokenize,
        lexed(input@) is Some && root_builds(lexed(input@)->0, options) ==> r is Ok,
        lexed(input@) is Some && root_error(lexed(input@)->0) is Some ==> r is Err && r->Err_0@ == root_error(
            lexed(input@)->0,
        )->0,
        r is Ok ==> exists|d: MJMLElement|
            parsed_from(d, lexed(input@)->0, options) && r->Ok_0@ == d.head.header@.preview,
{
    match parse(input, options) {
        Ok(d) => Ok(d.get_preview()),
        Err(e) => Err(e),
    }
}

/// The HTML of the document that the markup describes; fails as `parse` does.
pub fn to_html(input: &str, options: Options) -> (r: Result<String, Error>)
    ensures
        lexed(input@) is None ==> r is Err && r->Err_0@ == error::ErrorView::Tokenize,
        lexed(input@) is Some && root_builds(lexed(input@)->0, options) ==> r is Ok,
        lexed(input@) is Some && root_error(lexed(input@)->0) is Some ==> r is Err && r->Err_0@ == root_error(
            lexed(input@)->0,
        )->0,
        r is Ok ==> exists|d: MJMLElement|
            parsed_from(d, lexed(input@)->0, options) && r->Ok_0@ == document::document_html(d),
{
    match parse(input, options) {
        Ok(d) => d.get_html(),
        Err(e) => Err(e),
    }
}

/// A rendered email: its subject, its preview text and its HTML.
pub struct Email {
    pub subject: String,
    pub text: String,
    pub html: String,
}

/// The subject, preview text and HTML of the document that the markup describes.
pub fn to_email(input: &str, options: Options) -> (r: Result<Email, Error>)
    ensures
        lexed(input@) is None ==> r is Err && r->Err_0@ == error::ErrorView::Tokenize,
        lexed(input@) is Some && root_builds(lexed(input@)->0, options) ==> r is Ok,
        lexed(input@) is Some && root_error(lexed(input@)->0) is Some ==> r is Err && r->Err_0@ == root_error(
            lexed(input@)->0,
        )->0,
        r is Ok ==> exists|d: MJMLElement|
            parsed_from(d, lexed(input@)->0, options) && r->Ok_0.subject@ == d.head.header@.title
                && r->Ok_0.text@ == d.head.header@.preview && r->Ok_0.html@ == document::document_html(d),
{
    let element = match parse(input, options) {
        Ok(d) => d,
        Err(e) => {
            return Err(e);
        },
    };
    let subject = element.get_title();
    let text = element.get_preview();
    let html = match element.get_html() {
        Ok(h) => h,
        Err(e) => {
            return Err(e);
        },
    };
    Ok(Email { subject, text, html })
}

} // verus!
