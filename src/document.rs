use vstd::prelude::*;
use crate::attributes::{cascade, entries_map, resolve, Attributes};
use crate::body::{parse_children, BodyElement};
use crate::error::{Error, ErrorView};
use crate::head::{apply_head, attributes_step, head_apply, head_leaf, lemma_head_apply_flag, no_elements};
use crate::body::{body_tags_known, children_built, children_valid, comment_free, first_unknown_child, kind_of};
use crate::header::{defaults_for, Header, HeaderView};
use crate::node::{is_tag, Child, Node};
use crate::render::{children_html, count_row, row_size};
use crate::size::{parse_size, size_of, size_text, Size};
use crate::Options;

verus! {

/// The context in which a document starts.
pub open spec fn initial_header(o: Options) -> HeaderView {
    HeaderView {
        breakpoint: o.breakpoint,
        fonts: o.fonts.fonts@,
        defaults: Seq::empty(),
        title: Seq::empty(),
        preview: Seq::empty(),
        keep_comments: o.keep_comments,
    }
}

/// The head: the rendering context that its elements produced.
pub struct MJHead {
    pub header: Header,
}

/// The body: its resolved attributes and its content.
pub struct MJBody {
    pub attributes: Attributes,
    pub children: Vec<BodyElement>,
}

/// The hardcoded attributes of the body.
pub open spec fn body_defaults() -> Map<Seq<char>, Seq<char>> {
    map!["width"@ => "600px"@]
}

/// The attributes of a body built from the element `n` in the context `h`.
pub open spec fn body_attributes(n: Node, h: HeaderView) -> Map<Seq<char>, Seq<char>> {
    cascade(body_defaults(), defaults_for(h.defaults, "mj-body"@), Map::empty(), entries_map(n.attributes@))
}

impl MJBody {
    /// A body with no content.
    pub fn empty() -> (r: MJBody)
        ensures
            r.attributes@ == body_defaults(),
            r.children@.len() == 0,
    {
        let mut attributes = Attributes::new();
        attributes.set(String::from_str("width"), String::from_str("600px"));
        assert(attributes@ =~= body_defaults());
        MJBody { attributes, children: Vec::new() }
    }

    pub fn parse(node: &Node, header: &Header) -> (r: Result<MJBody, Error>)
        ensures
            r is Ok ==> r->Ok_0.attributes@ == body_attributes(*node, header@),
            r is Ok && !header.keep_comments ==> forall|i: int|
                0 <= i < r->Ok_0.children@.len() ==> crate::body::comment_free(#[trigger] r->Ok_0.children@[i]),
            r is Ok && header.keep_comments ==> r->Ok_0.children@.len() == node.children@.len(),
            r is Ok ==> children_built(r->Ok_0.children@, node.children@, header@),
            r is Ok <==> children_valid(node.children@, header@, false),
            forall|i: int| #[trigger] first_unknown_child(node.children@, header@, false, i) ==> r is Err
                && r->Err_0@ == ErrorView::UnknownElement(node.children@[i]->Element_0.tag@),
            r is Ok ==> forall|i: int|
                0 <= i < node.children@.len() ==> match #[trigger] node.children@[i] {
                    Child::Element(m) => crate::body::body_tags_known(m),
                    _ => true,
                },
    {
        let defaults = MJBody::empty().attributes;
        let local = node.local_attributes();
        let tag = String::from_str("mj-body");
        let context = header.defaults_for(&tag);
        let attributes = resolve(&defaults, Some(&context), None, &local);
        let children = match parse_children(node, header, false) {
            Ok(c) => c,
            Err(e) => {
                return Err(e);
            },
        };
        Ok(MJBody { attributes, children })
    }
}

impl MJBody {
    /// The width of the body, in pixels.
    pub fn width(&self) -> (r: u32)
        ensures
            r == body_width(self.attributes@),
    {
        let key = String::from_str("width");
        match self.attributes.get(&key) {
            Some(w) => match parse_size(w.as_str()) {
                Some(Size::Pixel(n)) => n,
                _ => 600,
            },
            None => 600,
        }
    }

    /// Appends the HTML of the content of the body, one element after the other.
    pub fn render_children(&self, width: u32, row: usize, out: &mut String)
        ensures
            final(out)@ == old(out)@ + children_html(self.children@, width as nat, row as nat),
    {
        let ghost start = out@;
        let mut i: usize = 0;
        while i < self.children.len()
            invariant
                i <= self.children@.len(),
                out@ == start + children_html(self.children@.subrange(0, i as int), width as nat, row as nat),
            decreases self.children@.len() - i,
        {
            crate::render::render_element(&self.children[i], width, row, out);
            proof {
                let s = self.children@.subrange(0, i + 1);
                assert(s.subrange(0, s.len() - 1) =~= self.children@.subrange(0, i as int));
                assert(s[s.len() - 1] == self.children@[i as int]);
                assert(out@ =~= start + children_html(s, width as nat, row as nat));
            }
            i = i + 1;
        }
        assert(self.children@.subrange(0, self.children@.len() as int) =~= self.children@);
    }
}

/// The width of the body, in pixels: its `width` where that is a pixel size, else 600.
pub open spec fn body_width(a: Map<Seq<char>, Seq<char>>) -> u32 {
    if a.contains_key("width"@) {
        match size_of(a["width"@]) {
            Some(Size::Pixel(w)) => w,
            _ => 600,
        }
    } else {
        600
    }
}

pub open spec fn head_html(h: HeaderView) -> Seq<char> {
    "<head><title>"@ + h.title
        + "</title><meta http-equiv=\"Content-Type\" content=\"text/html; charset=UTF-8\"><meta name=\"viewport\" content=\"width=device-width, initial-scale=1\"><style type=\"text/css\">@media only screen and (min-width:"@
        + size_text(h.breakpoint)
        + ") { .mj-column-per-100 { width:100% !important; max-width:100%; } }</style></head>"@
}

pub open spec fn body_html(b: MJBody, h: HeaderView) -> Seq<char> {
    "<body style=\"word-spacing:normal;\"><div style=\"display:none;font-size:1px;color:#ffffff;line-height:1px;max-height:0px;max-width:0px;opacity:0;overflow:hidden;\">"@
        + h.preview + "</div><div>"@ + children_html(
        b.children@,
        body_width(b.attributes@) as nat,
        row_size(b.children@),
    ) + "</div></body>"@
}

pub open spec fn document_html(d: MJMLElement) -> Seq<char> {
    "<!doctype html><html xmlns=\"http://www.w3.org/1999/xhtml\" xmlns:v=\"urn:schemas-microsoft-com:vml\" xmlns:o=\"urn:schemas-microsoft-com:office:office\">"@
        + head_html(d.head.header@) + body_html(d.body, d.head.header@) + "</html>"@
}

/// The last `mj-head` element among the children of the root.
pub open spec fn head_of(cs: Seq<Child>) -> Option<Node>
    decreases cs.len(),
{
    if cs.len() == 0 {
        None
    } else {
        match cs.last() {
            Child::Element(m) => if m.tag@ == "mj-head"@ { Some(m) } else { head_of(cs.drop_last()) },
            _ => head_of(cs.drop_last()),
        }
    }
}

/// The last `mj-body` element among the children of the root.
pub open spec fn body_of(cs: Seq<Child>) -> Option<Node>
    decreases cs.len(),
{
    if cs.len() == 0 {
        None
    } else {
        match cs.last() {
            Child::Element(m) => if m.tag@ == "mj-body"@ { Some(m) } else { body_of(cs.drop_last()) },
            _ => body_of(cs.drop_last()),
        }
    }
}

/// The context that the head among `cs` leaves, starting from `h`.
pub open spec fn head_result(h: HeaderView, cs: Seq<Child>) -> Result<HeaderView, ErrorView> {
    match head_of(cs) {
        Some(m) => head_apply(h, m.children@),
        None => Ok(h),
    }
}

/// Whether a tag names an element kind of the dispatch table.
pub open spec fn known_tag(t: Seq<char>) -> bool {
    t == "mjml"@ || t == "mj-head"@ || t == "mj-body"@ || t == "mj-attributes"@ || head_leaf(t) || kind_of(
        t,
    ) is Some
}

/// Whether `t` names an element kind.
pub fn is_known_tag(t: &String) -> (r: bool)
    ensures
        r == known_tag(t@),
{
    is_tag(t, "mjml") || is_tag(t, "mj-head") || is_tag(t, "mj-body") || is_tag(t, "mj-attributes") || is_tag(
        t,
        "mj-title",
    ) || is_tag(t, "mj-preview") || is_tag(t, "mj-breakpoint") || is_tag(t, "mj-font") || is_tag(t, "mj-section")
        || is_tag(t, "mj-column") || is_tag(t, "mj-text")
}

/// Whether every element of a markup tree names an element kind.
pub open spec fn tree_known(n: Node) -> bool
    decreases n,
{
    known_tag(n.tag@) && forall|i: int|
        0 <= i < n.children@.len() ==> match #[trigger] n.children@[i] {
            Child::Element(m) => tree_known(m),
            _ => true,
        }
}

proof fn lemma_body_known(n: Node)
    requires
        body_tags_known(n),
    ensures
        tree_known(n),
    decreases n,
{
    assert forall|i: int| 0 <= i < n.children@.len() implies match #[trigger] n.children@[i] {
        Child::Element(m) => tree_known(m),
        _ => true,
    } by {
        if let Child::Element(m) = n.children@[i] {
            assert(decreases_to!(n => n.children@[i]));
            lemma_body_known(m);
        }
    }
}

proof fn lemma_leaf_known(n: Node)
    requires
        known_tag(n.tag@),
        no_elements(n.children@),
    ensures
        tree_known(n),
{
    assert forall|i: int| 0 <= i < n.children@.len() implies match #[trigger] n.children@[i] {
        Child::Element(m) => tree_known(m),
        _ => true,
    } by {
        assert(!(n.children@[i] is Element));
    }
}

proof fn lemma_attributes_known(h: HeaderView, cs: Seq<Child>)
    requires
        attributes_step(h, cs) is Ok,
    ensures
        forall|i: int| 0 <= i < cs.len() ==> match #[trigger] cs[i] {
            Child::Element(m) => tree_known(m),
            _ => true,
        },
    decreases cs.len(),
{
    if cs.len() > 0 {
        lemma_attributes_known(h, cs.drop_last());
        if let Child::Element(m) = cs.last() {
            lemma_leaf_known(m);
        }
        assert forall|i: int| 0 <= i < cs.len() implies match #[trigger] cs[i] {
            Child::Element(m) => tree_known(m),
            _ => true,
        } by {
            if i < cs.len() - 1 {
                assert(cs[i] == cs.drop_last()[i]);
            }
        }
    }
}

/// A head that applies without failure holds only known elements.
proof fn lemma_head_known(h: HeaderView, cs: Seq<Child>)
    requires
        head_apply(h, cs) is Ok,
    ensures
        forall|i: int| 0 <= i < cs.len() ==> match #[trigger] cs[i] {
            Child::Element(m) => tree_known(m),
            _ => true,
        },
    decreases cs.len(),
{
    if cs.len() > 0 {
        lemma_head_known(h, cs.drop_last());
        let h1 = head_apply(h, cs.drop_last())->Ok_0;
        if let Child::Element(m) = cs.last() {
            if m.tag@ == "mj-attributes"@ {
                lemma_attributes_known(h1, m.children@);
            } else {
                lemma_leaf_known(m);
            }
        }
        assert forall|i: int| 0 <= i < cs.len() implies match #[trigger] cs[i] {
            Child::Element(m) => tree_known(m),
            _ => true,
        } by {
            if i < cs.len() - 1 {
                assert(cs[i] == cs.drop_last()[i]);
            }
        }
    }
}

/// Scans the children of the root in document order: the state is the
/// context, whether the head was seen and whether the body was seen. `None`
/// where the document cannot be built: an unknown child, a second head or
/// body, a head after the body, or a head or body that fails.
pub open spec fn root_scan(h: HeaderView, cs: Seq<Child>) -> Option<(HeaderView, bool, bool)>
    decreases cs.len(),
{
    if cs.len() == 0 {
        Some((h, false, false))
    } else {
        match root_scan(h, cs.drop_last()) {
            Some((h1, head_seen, body_seen)) => match cs.last() {
                Child::Element(m) => if m.tag@ == "mj-head"@ {
                    if head_seen || body_seen {
                        None
                    } else {
                        match head_apply(h1, m.children@) {
                            Ok(h2) => Some((h2, true, body_seen)),
                            Err(_) => None,
                        }
                    }
                } else if m.tag@ == "mj-body"@ {
                    if body_seen || !children_valid(m.children@, h1, false) {
                        None
                    } else {
                        Some((h1, head_seen, true))
                    }
                } else {
                    None
                },
                _ => Some((h1, head_seen, body_seen)),
            },
            None => None,
        }
    }
}

proof fn lemma_root_scan_none(h: HeaderView, cs: Seq<Child>, k: int)
    requires
        0 <= k <= cs.len(),
        root_scan(h, cs.subrange(0, k)) is None,
    ensures
        root_scan(h, cs) is None,
    decreases cs.len() - k,
{
    if k < cs.len() {
        assert(cs.subrange(0, k + 1).drop_last() =~= cs.subrange(0, k));
        lemma_root_scan_none(h, cs, k + 1);
    } else {
        assert(cs.subrange(0, k) =~= cs);
    }
}

/// A parsed document.
pub struct MJMLElement {
    pub head: MJHead,
    pub body: MJBody,
}

/// The context that the head among `cs` leaves, where it succeeds.
pub open spec fn head_state(h: HeaderView, cs: Seq<Child>) -> HeaderView {
    match head_of(cs) {
        Some(m) => head_apply(h, m.children@)->Ok_0,
        None => h,
    }
}

/// What a document built from the children `cs` of a root holds: the
/// context that the head left, and a body built in that context.
pub open spec fn document_from(d: MJMLElement, cs: Seq<Child>, o: Options) -> bool {
    &&& head_result(initial_header(o), cs) is Ok
    &&& d.head.header@ == head_state(initial_header(o), cs)
    &&& match body_of(cs) {
        Some(b) => d.body.attributes@ == body_attributes(b, d.head.header@) && children_built(
            d.body.children@,
            b.children@,
            d.head.header@,
        ),
        None => d.body.attributes@ == body_defaults() && d.body.children@.len() == 0,
    }
    &&& !o.keep_comments ==> forall|i: int|
        0 <= i < d.body.children@.len() ==> comment_free(#[trigger] d.body.children@[i])
    &&& o.keep_comments && body_of(cs) is Some ==> d.body.children@.len() == body_of(cs)->0.children@.len()
}

impl MJMLElement {
    /// Builds a document from the root element: the head first, then the
    /// body in the context that the head left.
    pub fn parse(node: &Node, opts: Options) -> (r: Result<MJMLElement, Error>)
        ensures
            r is Ok ==> document_from(r->Ok_0, node.children@, opts),
            r is Ok <==> root_scan(initial_header(opts), node.children@) is Some,
            r is Ok ==> forall|i: int|
                0 <= i < node.children@.len() ==> match #[trigger] node.children@[i] {
                    Child::Element(m) => tree_known(m),
                    _ => true,
                },
    {
        proof {
            reveal_strlit("mj-head");
            reveal_strlit("mj-body");
            assert("mj-head"@[3] != "mj-body"@[3]);
        }
        let ghost h0 = initial_header(opts);
        let mut p = MJMLElementParser::new(opts);
        let mut i: usize = 0;
        assert(node.children@.subrange(0, 0) =~= Seq::<Child>::empty());
        while i < node.children.len()
            invariant
                i <= node.children@.len(),
                head_result(h0, node.children@.subrange(0, i as int)) is Ok,
                p.header@ == head_state(h0, node.children@.subrange(0, i as int)),
                p.head_seen == head_of(node.children@.subrange(0, i as int)) is Some,
                p.body is Some == body_of(node.children@.subrange(0, i as int)) is Some,
                p.body is Some ==> p.body->0.attributes@ == body_attributes(
                    body_of(node.children@.subrange(0, i as int))->0,
                    p.header@,
                ) && children_built(
                    p.body->0.children@,
                    body_of(node.children@.subrange(0, i as int))->0.children@,
                    p.header@,
                ),
                forall|j: int|
                    0 <= j < i ==> match #[trigger] node.children@[j] {
                        Child::Element(m) => tree_known(m),
                        _ => true,
                    },
                p.header@.keep_comments == opts.keep_comments,
                p.header.keep_comments == opts.keep_comments,
                h0 == initial_header(opts),
                root_scan(h0, node.children@.subrange(0, i as int)) == Some(
                    (p.header@, p.head_seen, p.body is Some),
                ),
                p.body is Some && !opts.keep_comments ==> forall|j: int|
                    0 <= j < p.body->0.children@.len() ==> comment_free(#[trigger] p.body->0.children@[j]),
                p.body is Some && opts.keep_comments ==> p.body->0.children@.len() == body_of(
                    node.children@.subrange(0, i as int),
                )->0.children@.len(),
            decreases node.children@.len() - i,
        {
            let ghost prefix = node.children@.subrange(0, i as int);
            assert(node.children@.subrange(0, i + 1).drop_last() =~= prefix);
            match &node.children[i] {
                Child::Element(m) => {
                    let ghost before = (p.header@, p.head_seen, p.body is Some);
                    assert(node.children@.subrange(0, i + 1).last() == node.children@[i as int]);
                    match p.parse_child_element(m) {
                        Ok(()) => {},
                        Err(e) => {
                            proof {
                                assert(root_scan(h0, node.children@.subrange(0, i + 1)) is None);
                                lemma_root_scan_none(h0, node.children@, i + 1);
                            }
                            return Err(e);
                        },
                    }
                },
                Child::Comment(t) => {
                    p.parse_child_comment(t);
                },
                Child::Text(_) => {},
            }
            i = i + 1;
        }
        assert(node.children@.subrange(0, node.children@.len() as int) =~= node.children@);
        Ok(p.build())
    }

    /// The title that the head recorded.
    pub fn get_title(&self) -> (r: String)
        ensures
            r@ == self.head.header@.title,
    {
        self.head.header.title.clone()
    }

    /// The preview text that the head recorded.
    pub fn get_preview(&self) -> (r: String)
        ensures
            r@ == self.head.header@.preview,
    {
        self.head.header.preview.clone()
    }

    /// The HTML of the document. The document and its context are only read.
    pub fn get_html(&self) -> (r: Result<String, Error>)
        ensures
            r is Ok,
            r->Ok_0@ == document_html(*self),
    {
        let h = &self.head.header;
        let mut out = String::from_str("<!doctype html><html xmlns=\"http://www.w3.org/1999/xhtml\" xmlns:v=\"urn:schemas-microsoft-com:vml\" xmlns:o=\"urn:schemas-microsoft-com:office:office\">");
        out.append("<head><title>");
        out.append(h.title.as_str());
        out.append("</title><meta http-equiv=\"Content-Type\" content=\"text/html; charset=UTF-8\"><meta name=\"viewport\" content=\"width=device-width, initial-scale=1\"><style type=\"text/css\">@media only screen and (min-width:");
        h.breakpoint.push_text(&mut out);
        out.append(") { .mj-column-per-100 { width:100% !important; max-width:100%; } }</style></head>");
        out.append("<body style=\"word-spacing:normal;\"><div style=\"display:none;font-size:1px;color:#ffffff;line-height:1px;max-height:0px;max-width:0px;opacity:0;overflow:hidden;\">");
        out.append(h.preview.as_str());
        out.append("</div><div>");
        let width = self.body.width();
        let row = count_row(&self.body.children);
        self.body.render_children(width, row, &mut out);
        out.append("</div></body>");
        out.append("</html>");
        assert(out@ =~= document_html(*self));
        Ok(out)
    }
}

/// Builds a document from the children of its root, in document order.
pub struct MJMLElementParser {
    pub header: Header,
    pub head_seen: bool,
    pub body: Option<MJBody>,
}

impl MJMLElementParser {
    pub fn new(options: Options) -> (r: MJMLElementParser)
        ensures
            r.header@ == initial_header(options),
            !r.head_seen,
            r.body is None,
    {
        MJMLElementParser {
            header: Header::new(options.breakpoint, options.fonts, options.keep_comments),
            head_seen: false,
            body: None,
        }
    }

    /// Takes one child of the root. The head must come before the body, and
    /// each at most once.
    pub fn parse_child_element(&mut self, node: &Node) -> (r: Result<(), Error>)
        ensures
            r is Ok && node.tag@ == "mj-head"@ ==> !old(self).head_seen && old(self).body is None
                && final(self).head_seen && final(self).body is None && head_apply(
                old(self).header@,
                node.children@,
            ) == Ok::<HeaderView, ErrorView>(final(self).header@),
            r is Ok && node.tag@ == "mj-body"@ ==> old(self).body is None && final(self).header@
                == old(self).header@ && final(self).head_seen == old(self).head_seen && final(self).body is Some
                && final(self).body->0.attributes@ == body_attributes(*node, old(self).header@)
                && children_built(final(self).body->0.children@, node.children@, old(self).header@),
            r is Ok ==> node.tag@ == "mj-head"@ || node.tag@ == "mj-body"@,
            r is Ok ==> tree_known(*node),
            r is Ok <==> (node.tag@ == "mj-head"@ && !old(self).head_seen && old(self).body is None && head_apply(
                old(self).header@,
                node.children@,
            ) is Ok) || (node.tag@ == "mj-body"@ && old(self).body is None && children_valid(
                node.children@,
                old(self).header@,
                false,
            )),
            r is Ok ==> final(self).header@.keep_comments == old(self).header@.keep_comments,
            r is Ok && node.tag@ == "mj-body"@ && !old(self).header.keep_comments ==> forall|i: int|
                0 <= i < final(self).body->0.children@.len() ==> comment_free(
                    #[trigger] final(self).body->0.children@[i],
                ),
            r is Ok && node.tag@ == "mj-body"@ && old(self).header.keep_comments ==> final(self).body->0.children@.len()
                == node.children@.len(),
            node.tag@ != "mj-head"@ && node.tag@ != "mj-body"@ ==> r is Err && r->Err_0@
                == ErrorView::UnknownElement(node.tag@),
            node.tag@ != "mj-head"@ && node.tag@ != "mj-body"@ ==> *final(self) == *old(self),
    {
        proof {
            reveal_strlit("mj-head");
            reveal_strlit("mj-body");
            assert("mj-head"@[3] != "mj-body"@[3]);
        }
        if is_tag(&node.tag, "mj-head") {
            if self.head_seen || self.body.is_some() {
                return Err(Error::InvalidChild);
            }
            match apply_head(node, &mut self.header) {
                Ok(()) => {
                    proof {
                        lemma_head_known(old(self).header@, node.children@);
                        lemma_head_apply_flag(old(self).header@, node.children@);
                    }
                },
                Err(e) => {
                    return Err(e);
                },
            }
            self.head_seen = true;
            Ok(())
        } else if is_tag(&node.tag, "mj-body") {
            if self.body.is_some() {
                return Err(Error::InvalidChild);
            }
            let parsed = MJBody::parse(node, &self.header);
            match parsed {
                Ok(b) => {
                    proof {
                        assert forall|i: int| 0 <= i < node.children@.len() implies match #[trigger] node.children@[i] {
                            Child::Element(m) => tree_known(m),
                            _ => true,
                        } by {
                            if let Child::Element(m) = node.children@[i] {
                                lemma_body_known(m);
                            }
                        }
                    }
                    let ghost h = self.header@;
                    self.body = Some(b);
                    assert(self.header@ == h);
                    Ok(())
                },
                Err(e) => Err(e),
            }
        } else {
            Err(Error::UnknownElement(node.tag.clone()))
        }
    }

    /// Comments at the root are left out.
    pub fn parse_child_comment(&mut self, value: &String)
        ensures
            *final(self) == *old(self),
    {
    }

    pub fn build(self) -> (r: MJMLElement)
        ensures
            r.head.header == self.header,
            match self.body {
                Some(b) => r.body == b,
                None => r.body.attributes@ == body_defaults() && r.body.children@.len() == 0,
            },
    {
        let body = match self.body {
            Some(b) => b,
            None => MJBody::empty(),
        };
        MJMLElement { head: MJHead { header: self.header }, body }
    }
}

} // verus!
