use vstd::prelude::*;
use crate::document::{
    body_attributes, body_of, document_from, document_html, head_of, initial_header, known_tag, root_scan,
    tree_known, MJMLElement,
};
use crate::attributes::entries_map;
use crate::body::{built_from, comment_free, BodyElement};
use crate::header::defaults_for;
use crate::head::{breakpoint_value, head_apply, no_elements};
use crate::header::HeaderView;
use crate::node::{attr_tokens, children_tokens, node_tokens, Child, Node};
use crate::size::size_text;
use crate::tokens::TokenView;
use crate::{parsed_from, Options};
use crate::error::ErrorView;

verus! {

broadcast use vstd::seq::axiom_seq_subrange_decreases, vstd::seq::axiom_seq_index_decreases,
    vstd::std_specs::vec::axiom_vec_decreases_to_view;

/// Whether every start tag among `ts` names an element kind.
pub open spec fn starts_known(ts: Seq<TokenView>) -> bool {
    forall|i: int| 0 <= i < ts.len() && #[trigger] ts[i] is Start ==> known_tag(ts[i]->Start_0)
}

proof fn lemma_starts_known_concat(a: Seq<TokenView>, b: Seq<TokenView>)
    requires
        starts_known(a),
        starts_known(b),
    ensures
        starts_known(a + b),
{
    assert forall|i: int| 0 <= i < (a + b).len() && #[trigger] (a + b)[i] is Start implies known_tag(
        (a + b)[i]->Start_0,
    ) by {
        if i < a.len() {
            assert((a + b)[i] == a[i]);
        } else {
            assert((a + b)[i] == b[i - a.len()]);
        }
    }
}

proof fn lemma_attr_tokens_known(a: Seq<(String, String)>)
    ensures
        starts_known(attr_tokens(a)),
    decreases a.len(),
{
    if a.len() > 0 {
        lemma_attr_tokens_known(a.drop_last());
        let t = attr_tokens(a);
        assert forall|i: int| 0 <= i < t.len() && #[trigger] t[i] is Start implies known_tag(t[i]->Start_0) by {
            if i < t.len() - 1 {
                assert(t[i] == attr_tokens(a.drop_last())[i]);
            }
        }
    }
}

proof fn lemma_node_tokens_known(n: Node)
    requires
        tree_known(n),
    ensures
        starts_known(node_tokens(n)),
    decreases n, 1int,
{
    let head = seq![TokenView::Start(n.tag@)];
    assert(starts_known(head));
    lemma_attr_tokens_known(n.attributes@);
    lemma_starts_known_concat(head, attr_tokens(n.attributes@));
    if n.closed {
        lemma_starts_known_concat(head + attr_tokens(n.attributes@), seq![TokenView::Empty]);
    } else {
        assert(decreases_to!(n => n.children@));
        lemma_children_tokens_known(n.children@);
        let open = seq![TokenView::Open];
        let close = seq![TokenView::Close(n.tag@)];
        assert(starts_known(open));
        assert(starts_known(close));
        lemma_starts_known_concat(open, children_tokens(n.children@));
        lemma_starts_known_concat(open + children_tokens(n.children@), close);
        lemma_starts_known_concat(
            head + attr_tokens(n.attributes@),
            open + children_tokens(n.children@) + close,
        );
    }
}

proof fn lemma_children_tokens_known(cs: Seq<Child>)
    requires
        forall|i: int| 0 <= i < cs.len() ==> match #[trigger] cs[i] {
            Child::Element(m) => tree_known(m),
            _ => true,
        },
    ensures
        starts_known(children_tokens(cs)),
    decreases cs, 0int,
{
    if cs.len() > 0 {
        let init = cs.subrange(0, cs.len() - 1);
        assert forall|i: int| 0 <= i < init.len() implies match #[trigger] init[i] {
            Child::Element(m) => tree_known(m),
            _ => true,
        } by {
            assert(init[i] == cs[i]);
        }
        lemma_children_tokens_known(init);
        let last = cs[cs.len() - 1];
        let tail = match last {
            Child::Element(m) => node_tokens(m),
            Child::Text(t) => seq![TokenView::Text(t@)],
            Child::Comment(t) => seq![TokenView::Comment(t@)],
        };
        match last {
            Child::Element(m) => {
                lemma_node_tokens_known(m);
            },
            _ => {
                assert(starts_known(tail));
            },
        }
        lemma_starts_known_concat(children_tokens(init), tail);
    }
}

/// Unknown tags are rejected: when a document was built from a token
/// sequence, every start tag up to the end of its root names an element
/// kind. So a tag outside the dispatch table there means no document at all.
pub proof fn unknown_tags_rejected(d: MJMLElement, ts: Seq<TokenView>, o: Options)
    requires
        parsed_from(d, ts, o),
    ensures
        exists|b: int| 0 < b <= ts.len() && starts_known(#[trigger] ts.subrange(0, b)),
{
    let (root, b) = choose|root: Node, b: int|
        0 < b <= ts.len() && ts.subrange(0, b) == node_tokens(root) && root.tag@ == "mjml"@ && tree_known(root)
            && root_scan(initial_header(o), root.children@) is Some && document_from(d, root.children@, o);
    lemma_node_tokens_known(root);
}

/// The head applies, in document order, before the body: the context of the
/// document is the one that all head children left, the body was built in
/// it, and the HTML is rendered with its breakpoint.
pub proof fn head_before_body(d: MJMLElement, cs: Seq<Child>, o: Options)
    requires
        document_from(d, cs, o),
        head_of(cs) is Some,
    ensures
        head_apply(initial_header(o), head_of(cs)->0.children@) == Ok::<HeaderView, ErrorView>(d.head.header@),
        body_of(cs) is Some ==> d.body.attributes@ == body_attributes(body_of(cs)->0, d.head.header@),
        exists|pre: Seq<char>, post: Seq<char>|
            document_html(d) == pre + size_text(d.head.header@.breakpoint) + post,
{
    let h = d.head.header@;
    let pre = "<!doctype html><html xmlns=\"http://www.w3.org/1999/xhtml\" xmlns:v=\"urn:schemas-microsoft-com:vml\" xmlns:o=\"urn:schemas-microsoft-com:office:office\">"@
        + "<head><title>"@ + h.title
        + "</title><meta http-equiv=\"Content-Type\" content=\"text/html; charset=UTF-8\"><meta name=\"viewport\" content=\"width=device-width, initial-scale=1\"><style type=\"text/css\">@media only screen and (min-width:"@;
    let post = ") { .mj-column-per-100 { width:100% !important; max-width:100%; } }</style></head>"@
        + crate::document::body_html(d.body, h) + "</html>"@;
    assert(document_html(d) =~= pre + size_text(h.breakpoint) + post);
}

/// With comments dropped, no comment reaches the body of a parsed document,
/// at any depth; with comments kept, the body holds one entry per child of
/// its markup, comments included.
pub proof fn comments_follow_option(d: MJMLElement, ts: Seq<TokenView>, o: Options)
    requires
        parsed_from(d, ts, o),
    ensures
        !o.keep_comments ==> forall|i: int|
            0 <= i < d.body.children@.len() ==> comment_free(#[trigger] d.body.children@[i]),
        o.keep_comments ==> exists|root: Node|
            #[trigger] node_tokens(root) == ts.subrange(0, node_tokens(root).len() as int) && (body_of(
                root.children@,
            ) is Some ==> d.body.children@.len() == body_of(root.children@)->0.children@.len()),
{
    let (root, b) = choose|root: Node, b: int|
        0 < b <= ts.len() && ts.subrange(0, b) == node_tokens(root) && root.tag@ == "mjml"@ && tree_known(root)
            && root_scan(initial_header(o), root.children@) is Some && document_from(d, root.children@, o);
    assert(node_tokens(root) == ts.subrange(0, node_tokens(root).len() as int));
}

/// A default registered in the head for a tag reaches every element of
/// that tag that does not declare the attribute itself and gets nothing
/// for it from its parent.
pub proof fn context_default_reaches_element(
    e: BodyElement,
    n: Node,
    h: HeaderView,
    extra: Map<Seq<char>, Seq<char>>,
    name: Seq<char>,
)
    requires
        built_from(e, n, h, extra),
        defaults_for(h.defaults, n.tag@).contains_key(name),
        !entries_map(n.attributes@).contains_key(name),
        !extra.contains_key(name),
    ensures
        e->Component_0.attributes@.contains_key(name),
        e->Component_0.attributes@[name] == defaults_for(h.defaults, n.tag@)[name],
{
}

/// A breakpoint element that follows the rest of the head wins: whatever
/// the earlier children set, the context ends with its width.
pub proof fn last_breakpoint_wins(h: HeaderView, cs: Seq<Child>, m: Node)
    requires
        head_apply(h, cs) is Ok,
        m.tag@ == "mj-breakpoint"@,
        no_elements(m.children@),
        breakpoint_value(m) is Some,
    ensures
        head_apply(h, cs.push(Child::Element(m))) is Ok,
        head_apply(h, cs.push(Child::Element(m)))->Ok_0.breakpoint == breakpoint_value(m)->0,
{
    reveal_strlit("mj-breakpoint");
    reveal_strlit("mj-attributes");
    reveal_strlit("mj-title");
    reveal_strlit("mj-preview");
    assert("mj-breakpoint"@[3] != "mj-attributes"@[3]);
    assert("mj-breakpoint"@.len() != "mj-title"@.len());
    assert("mj-breakpoint"@.len() != "mj-preview"@.len());
    assert(cs.push(Child::Element(m)).drop_last() =~= cs);
}

} // verus!
