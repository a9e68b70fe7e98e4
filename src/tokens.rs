use vstd::prelude::*;
use xmlparser::{ElementEnd, Token};

verus! {

/// One structural token of the markup.
#[derive(Debug)]
pub enum XmlToken {
    /// `<name`
    Start(String),
    /// `name="value"`
    Attribute(String, String),
    /// `>` closing a start tag whose element has content
    Open,
    /// `/>`
    Empty,
    /// `</name>`
    Close(String),
    /// Character data.
    Text(String),
    /// The text of a comment.
    Comment(String),
    /// Declarations, processing instructions, DTD parts and CDATA.
    Other,
}

/// The mathematical value of a token.
pub enum TokenView {
    Start(Seq<char>),
    Attribute(Seq<char>, Seq<char>),
    Open,
    Empty,
    Close(Seq<char>),
    Text(Seq<char>),
    Comment(Seq<char>),
    Other,
}

impl View for XmlToken {
    type V = TokenView;

    open spec fn view(&self) -> TokenView {
        match self {
            XmlToken::Start(t) => TokenView::Start(t@),
            XmlToken::Attribute(k, v) => TokenView::Attribute(k@, v@),
            XmlToken::Open => TokenView::Open,
            XmlToken::Empty => TokenView::Empty,
            XmlToken::Close(t) => TokenView::Close(t@),
            XmlToken::Text(t) => TokenView::Text(t@),
            XmlToken::Comment(t) => TokenView::Comment(t@),
            XmlToken::Other => TokenView::Other,
        }
    }
}

impl XmlToken {
    pub fn is_start(&self) -> (r: bool)
        ensures
            r == self is Start,
    {
        match self {
            XmlToken::Start(_) => true,
            _ => false,
        }
    }

    pub fn is_attribute(&self) -> (r: bool)
        ensures
            r == self is Attribute,
    {
        match self {
            XmlToken::Attribute(_, _) => true,
            _ => false,
        }
    }
}

/// The views of a sequence of tokens.
pub open spec fn toks_view(s: Seq<XmlToken>) -> Seq<TokenView> {
    s.map_values(|t: XmlToken| t@)
}

/// The token sequence that the tokenizer yields for a text, or `None` where
/// it reports an error.
pub uninterp spec fn lexed(s: Seq<char>) -> Option<Seq<TokenView>>;

/// Relies on xmlparser's `Tokenizer`: iterating it over a text yields its
/// tokens in document order, or an error; the outcome depends on the text alone.
#[verifier::external_body]
pub(crate) fn tokenize(input: &str) -> (r: Option<Vec<XmlToken>>)
    ensures
        r is Some <==> lexed(input@) is Some,
        r is Some ==> toks_view(r->0@) == lexed(input@)->0,
{
    let mut out = Vec::new();
    for token in xmlparser::Tokenizer::from(input) {
        out.push(match token.ok()? {
            Token::ElementStart { local, .. } => XmlToken::Start(local.to_string()),
            Token::Attribute { local, value, .. } => XmlToken::Attribute(local.to_string(), value.to_string()),
            Token::ElementEnd { end: ElementEnd::Open, .. } => XmlToken::Open,
            Token::ElementEnd { end: ElementEnd::Empty, .. } => XmlToken::Empty,
            Token::ElementEnd { end: ElementEnd::Close(_, local), .. } => XmlToken::Close(local.to_string()),
            Token::Text { text } => XmlToken::Text(text.to_string()),
            Token::Comment { text, .. } => XmlToken::Comment(text.to_string()),
            _ => XmlToken::Other,
        });
    }
    Some(out)
}

} // verus!
