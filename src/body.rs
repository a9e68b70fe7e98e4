use vstd::prelude::*;
use crate::attributes::{cascade, entries_map, resolve, Attributes};
use crate::error::{Error, ErrorView};
use crate::header::{defaults_for, Header, HeaderView};
use crate::node::{is_tag, Child, Node};
use crate::size::{parse_size, size_of};

verus! {

broadcast use vstd::seq::axiom_seq_subrange_decreases, vstd::seq::axiom_seq_index_decreases,
    vstd::std_specs::vec::axiom_vec_decreases_to_view;

/// The element kinds that may stand inside the body.
#[derive(Clone, Copy, Debug, PartialEq, Eq, Structural)]
pub enum Kind {
    Section,
    Column,
    Text,
}

/// The kind that a tag names inside the body, if any.
pub open spec fn kind_of(tag: Seq<char>) -> Option<Kind> {
    if tag == "mj-section"@ {
        Some(Kind::Section)
    } else if tag == "mj-column"@ {
        Some(Kind::Column)
    } else if tag == "mj-text"@ {
        Some(Kind::Text)
    } else {
        None
    }
}

/// A built element of the body, with its resolved attributes.
pub struct Component {
    pub kind: Kind,
    pub attributes: Attributes,
    pub children: Vec<BodyElement>,
}

/// The content of a body element.
pub enum BodyElement {
    Component(Component),
    Raw(String),
    Comment(String),
}

/// The hardcoded attributes of a kind, as a list of entries.
pub open spec fn kind_default_entries(k: Kind) -> Seq<(Seq<char>, Seq<char>)> {
    match k {
        Kind::Section => seq![("direction"@, "ltr"@), ("text-align"@, "center"@)],
        Kind::Column => seq![("direction"@, "ltr"@), ("vertical-align"@, "top"@)],
        Kind::Text => seq![
            ("align"@, "left"@),
            ("color"@, "#000000"@),
            ("font-family"@, "Ubuntu, Helvetica, Arial, sans-serif"@),
            ("font-size"@, "13px"@),
            ("line-height"@, "1"@),
            ("padding"@, "10px 25px"@),
        ],
    }
}

pub open spec fn pairs_map(s: Seq<(Seq<char>, Seq<char>)>) -> Map<Seq<char>, Seq<char>>
    decreases s.len(),
{
    if s.len() == 0 {
        Map::empty()
    } else {
        pairs_map(s.drop_last()).insert(s.last().0, s.last().1)
    }
}

/// The hardcoded default attributes of a kind.
pub open spec fn kind_defaults(k: Kind) -> Map<Seq<char>, Seq<char>> {
    pairs_map(kind_default_entries(k))
}

fn put(a: &mut Attributes, k: &str, v: &str)
    ensures
        final(a)@ == old(a)@.insert(k@, v@),
{
    a.set(String::from_str(k), String::from_str(v));
}

/// The hardcoded default attributes of a kind.
pub fn default_attributes(k: Kind) -> (r: Attributes)
    ensures
        r@ == kind_defaults(k),
{
    let mut a = Attributes::new();
    match k {
        Kind::Section => {
            put(&mut a, "direction", "ltr");
            put(&mut a, "text-align", "center");
        },
        Kind::Column => {
            put(&mut a, "direction", "ltr");
            put(&mut a, "vertical-align", "top");
        },
        Kind::Text => {
            put(&mut a, "align", "left");
            put(&mut a, "color", "#000000");
            put(&mut a, "font-family", "Ubuntu, Helvetica, Arial, sans-serif");
            put(&mut a, "font-size", "13px");
            put(&mut a, "line-height", "1");
            put(&mut a, "padding", "10px 25px");
        },
    }
    proof {
        let e = kind_default_entries(k);
        assert(pairs_map(e) =~= a@) by {
            reveal_with_fuel(pairs_map, 7);
        }
    }
    a
}

/// Whether every element of a markup tree names a body kind.
pub open spec fn body_tags_known(n: Node) -> bool
    decreases n,
{
    kind_of(n.tag@) is Some && forall|i: int|
        0 <= i < n.children@.len() ==> match #[trigger] n.children@[i] {
            Child::Element(m) => body_tags_known(m),
            _ => true,
        }
}

/// Whether a built element holds no comment, at any depth.
pub open spec fn comment_free(e: BodyElement) -> bool
    decreases e,
{
    match e {
        BodyElement::Component(c) => forall|i: int|
            0 <= i < c.children@.len() ==> comment_free(#[trigger] c.children@[i]),
        BodyElement::Raw(_) => true,
        BodyElement::Comment(_) => false,
    }
}

/// What the build of an element states of the element it yields: its kind
/// comes from its tag, its attributes from the cascade.
pub open spec fn built_from(
    e: BodyElement,
    n: Node,
    h: HeaderView,
    extra: Map<Seq<char>, Seq<char>>,
) -> bool {
    &&& e is Component
    &&& kind_of(n.tag@) == Some(e->Component_0.kind)
    &&& e->Component_0.attributes@ == cascade(
        kind_defaults(e->Component_0.kind),
        defaults_for(h.defaults, n.tag@),
        extra,
        entries_map(n.attributes@),
    )
}

/// Whether `e` is the element built from the markup element `n` in the
/// context `h`, with `extra` pushed down by its parent: its kind and
/// attributes as `built_from` says, and its children built one for one from
/// those of `n`, in order.
pub open spec fn element_built(
    e: BodyElement,
    n: Node,
    h: HeaderView,
    extra: Map<Seq<char>, Seq<char>>,
) -> bool
    decreases n, 1int,
{
    built_from(e, n, h, extra) && children_built(e->Component_0.children@, n.children@, h)
}

/// Whether `es` are the children built from the markup children `cs` in the
/// context `h`: text is kept as is, comments are kept only where the context
/// keeps them, and each element is built with nothing pushed down.
pub open spec fn children_built(es: Seq<BodyElement>, cs: Seq<Child>, h: HeaderView) -> bool
    decreases cs, 0int,
{
    if cs.len() == 0 {
        es.len() == 0
    } else {
        let init = cs.subrange(0, cs.len() - 1);
        match cs[cs.len() - 1] {
            Child::Comment(t) => if h.keep_comments {
                es.len() > 0 && es.last() == BodyElement::Comment(t) && children_built(es.drop_last(), init, h)
            } else {
                children_built(es, init, h)
            },
            Child::Text(t) => es.len() > 0 && es.last() == BodyElement::Raw(t) && children_built(
                es.drop_last(),
                init,
                h,
            ),
            Child::Element(m) => es.len() > 0 && element_built(es.last(), m, h, Map::empty())
                && children_built(es.drop_last(), init, h),
        }
    }
}

/// Whether a resolved column width, if any, is a valid size.
pub open spec fn column_width_ok(a: Map<Seq<char>, Seq<char>>) -> bool {
    !a.contains_key("width"@) || size_of(a["width"@]) is Some
}

/// Whether the markup element `n` builds into a body element in the context
/// `h`, with `extra` pushed down: every tag names a body kind, a text holds
/// no element, and every resolved column width is a valid size.
pub open spec fn body_valid(n: Node, h: HeaderView, extra: Map<Seq<char>, Seq<char>>) -> bool
    decreases n,
{
    &&& kind_of(n.tag@) is Some
    &&& kind_of(n.tag@) == Some(Kind::Column) ==> column_width_ok(
        cascade(kind_defaults(Kind::Column), defaults_for(h.defaults, n.tag@), extra, entries_map(n.attributes@)),
    )
    &&& forall|i: int|
        0 <= i < n.children@.len() ==> match #[trigger] n.children@[i] {
            Child::Element(m) => kind_of(n.tag@) != Some(Kind::Text) && body_valid(m, h, Map::empty()),
            _ => true,
        }
}

/// Whether the markup children `cs` build in the context `h`; a leaf takes no element.
pub open spec fn children_valid(cs: Seq<Child>, h: HeaderView, leaf: bool) -> bool {
    forall|i: int|
        0 <= i < cs.len() ==> match #[trigger] cs[i] {
            Child::Element(m) => !leaf && body_valid(m, h, Map::empty()),
            _ => true,
        }
}

/// Whether child `i` of `cs` is the first that fails to build, and fails
/// because its tag names no body kind.
pub open spec fn first_unknown_child(cs: Seq<Child>, h: HeaderView, leaf: bool, i: int) -> bool {
    &&& 0 <= i < cs.len()
    &&& forall|j: int|
        0 <= j < i ==> match #[trigger] cs[j] {
            Child::Element(m) => !leaf && body_valid(m, h, Map::empty()),
            _ => true,
        }
    &&& match cs[i] {
        Child::Element(m) => !leaf && kind_of(m.tag@) is None,
        _ => false,
    }
}

pub open spec fn extra_map(extra: Option<&Attributes>) -> Map<Seq<char>, Seq<char>> {
    match extra {
        Some(e) => e@,
        None => Map::empty(),
    }
}

/// Builds the body element that a markup element describes.
pub fn parse_body_element(node: &Node, header: &Header, extra: Option<&Attributes>) -> (r: Result<
    BodyElement,
    Error,
>)
    ensures
        kind_of(node.tag@) is None ==> r is Err && r->Err_0@ == ErrorView::UnknownElement(node.tag@),
        r is Ok ==> body_tags_known(*node),
        r is Ok <==> body_valid(*node, header@, extra_map(extra)),
        r is Ok ==> element_built(r->Ok_0, *node, header@, extra_map(extra)),
        r is Ok && !header.keep_comments ==> comment_free(r->Ok_0),
    decreases *node, 1int,
{
    let kind = if is_tag(&node.tag, "mj-section") {
        Kind::Section
    } else if is_tag(&node.tag, "mj-column") {
        Kind::Column
    } else if is_tag(&node.tag, "mj-text") {
        Kind::Text
    } else {
        return Err(Error::UnknownElement(node.tag.clone()));
    };
    if kind == Kind::Column {
        return match MJColumn::parse(node, header, extra) {
            Ok(c) => {
                let e = BodyElement::Component(Component { kind, attributes: c.attributes, children: c.children });
                proof {
                    if !header.keep_comments {
                        assert forall|i: int| 0 <= i < c.children@.len() implies comment_free(
                            #[trigger] c.children@[i],
                        ) by {}
                    }
                }
                Ok(e)
            },
            Err(e) => Err(e),
        };
    }
    let defaults = default_attributes(kind);
    let context = header.defaults_for(&node.tag);
    let local = node.local_attributes();
    let attributes = resolve(&defaults, Some(&context), extra, &local);
    let children = match parse_children(node, header, kind == Kind::Text) {
        Ok(c) => c,
        Err(e) => {
            return Err(e);
        },
    };
    let e = BodyElement::Component(Component { kind, attributes, children });
    proof {
        if !header.keep_comments {
            assert forall|i: int| 0 <= i < children@.len() implies comment_free(#[trigger] children@[i]) by {}
        }
    }
    Ok(e)
}

/// The `mj-column` element: it lays its content out in one column of a row.
pub struct MJColumn {
    pub attributes: Attributes,
    pub children: Vec<BodyElement>,
}

/// Collects the declared attributes and the children of a column, then
/// resolves its attributes.
pub struct MJColumnParser<'h> {
    pub header: &'h Header,
    /// Attributes that the parent pushes down.
    pub extra: Option<&'h Attributes>,
    /// Attributes declared on the tag.
    pub attributes: Attributes,
    pub children: Vec<BodyElement>,
}

impl<'h> MJColumnParser<'h> {
    pub fn new(header: &'h Header, extra: Option<&'h Attributes>) -> (r: MJColumnParser<'h>)
        ensures
            r.header == header,
            r.extra == extra,
            r.attributes@ == Map::<Seq<char>, Seq<char>>::empty(),
            r.children@.len() == 0,
    {
        MJColumnParser { header, extra, attributes: Attributes::new(), children: Vec::new() }
    }

    /// Records a declared attribute; a later one of the same name wins.
    pub fn parse_attribute(&mut self, name: String, value: String)
        ensures
            final(self).attributes@ == old(self).attributes@.insert(name@, value@),
            final(self).children == old(self).children,
            final(self).header == old(self).header,
            final(self).extra == old(self).extra,
    {
        self.attributes.set(name, value);
    }

    /// Keeps a comment, unless the context drops comments.
    pub fn parse_child_comment(&mut self, value: String)
        ensures
            final(self).attributes == old(self).attributes,
            final(self).header == old(self).header,
            final(self).extra == old(self).extra,
            old(self).header.keep_comments ==> final(self).children@ == old(self).children@.push(
                BodyElement::Comment(value),
            ),
            !old(self).header.keep_comments ==> final(self).children == old(self).children,
    {
        if self.header.keep_comments {
            self.children.push(BodyElement::Comment(value));
        }
    }

    pub fn parse_child_text(&mut self, value: String)
        ensures
            final(self).attributes == old(self).attributes,
            final(self).header == old(self).header,
            final(self).extra == old(self).extra,
            final(self).children@ == old(self).children@.push(BodyElement::Raw(value)),
    {
        self.children.push(BodyElement::Raw(value));
    }

    /// Builds a nested element and appends it.
    pub fn parse_child_element(&mut self, node: &Node) -> (r: Result<(), Error>)
        ensures
            final(self).attributes == old(self).attributes,
            final(self).header == old(self).header,
            final(self).extra == old(self).extra,
            r is Ok ==> final(self).children@.len() == old(self).children@.len() + 1
                && final(self).children@.subrange(0, old(self).children@.len() as int) == old(self).children@
                && element_built(final(self).children@.last(), *node, old(self).header@, Map::empty())
                && body_tags_known(*node)
                && (!old(self).header.keep_comments ==> comment_free(final(self).children@.last())),
            r is Ok <==> body_valid(*node, old(self).header@, Map::empty()),
            kind_of(node.tag@) is None ==> r is Err && r->Err_0@ == ErrorView::UnknownElement(node.tag@),
            r is Err ==> final(self).children == old(self).children,
        decreases *node, 2int,
    {
        match parse_body_element(node, self.header, None) {
            Ok(e) => {
                self.children.push(e);
                assert(self.children@.subrange(0, old(self).children@.len() as int) =~= old(self).children@);
                Ok(())
            },
            Err(e) => Err(e),
        }
    }

    /// Resolves the attributes through the cascade and checks the width.
    pub fn build(self, tag: &String) -> (r: Result<MJColumn, Error>)
        ensures
            r is Ok ==> r->Ok_0.attributes@ == cascade(
                kind_defaults(Kind::Column),
                defaults_for(self.header@.defaults, tag@),
                extra_map(self.extra),
                self.attributes@,
            ) && r->Ok_0.children == self.children,
            r is Err ==> r->Err_0 is InvalidAttributeValue,
            r is Ok <==> column_width_ok(
                cascade(
                    kind_defaults(Kind::Column),
                    defaults_for(self.header@.defaults, tag@),
                    extra_map(self.extra),
                    self.attributes@,
                ),
            ),
    {
        let defaults = default_attributes(Kind::Column);
        let context = self.header.defaults_for(tag);
        let attributes = resolve(&defaults, Some(&context), self.extra, &self.attributes);
        let width_key = String::from_str("width");
        if let Some(w) = attributes.get(&width_key) {
            if parse_size(w.as_str()).is_none() {
                return Err(Error::InvalidAttributeValue(tag.clone(), width_key, w.clone()));
            }
        }
        Ok(MJColumn { attributes, children: self.children })
    }
}

impl MJColumn {
    pub fn parse(node: &Node, header: &Header, extra: Option<&Attributes>) -> (r: Result<MJColumn, Error>)
        ensures
            r is Ok ==> r->Ok_0.attributes@ == cascade(
                kind_defaults(Kind::Column),
                defaults_for(header@.defaults, node.tag@),
                extra_map(extra),
                entries_map(node.attributes@),
            ),
            r is Ok ==> forall|i: int|
                0 <= i < node.children@.len() ==> match #[trigger] node.children@[i] {
                    Child::Element(m) => body_tags_known(m),
                    _ => true,
                },
            r is Ok && !header.keep_comments ==> forall|i: int|
                0 <= i < r->Ok_0.children@.len() ==> comment_free(#[trigger] r->Ok_0.children@[i]),
            r is Ok && header.keep_comments ==> r->Ok_0.children@.len() == node.children@.len(),
            r is Ok ==> children_built(r->Ok_0.children@, node.children@, header@),
            r is Ok <==> children_valid(node.children@, header@, false) && column_width_ok(
                cascade(
                    kind_defaults(Kind::Column),
                    defaults_for(header@.defaults, node.tag@),
                    extra_map(extra),
                    entries_map(node.attributes@),
                ),
            ),
            forall|i: int| #[trigger] first_unknown_child(node.children@, header@, false, i) ==> r is Err && r->Err_0@
                == ErrorView::UnknownElement(node.children@[i]->Element_0.tag@),
        decreases *node, 0int,
    {
        let mut p = MJColumnParser::new(header, extra);
        let mut i: usize = 0;
        while i < node.attributes.len()
            invariant
                i <= node.attributes@.len(),
                p.header == header,
                p.extra == extra,
                p.children@.len() == 0,
                p.attributes@ == entries_map(node.attributes@.subrange(0, i as int)),
            decreases node.attributes@.len() - i,
        {
            let e = &node.attributes[i];
            assert(node.attributes@.subrange(0, i + 1).drop_last() =~= node.attributes@.subrange(0, i as int));
            p.parse_attribute(e.0.clone(), e.1.clone());
            i = i + 1;
        }
        assert(node.attributes@.subrange(0, node.attributes@.len() as int) =~= node.attributes@);
        let mut i: usize = 0;
        while i < node.children.len()
            invariant
                i <= node.children@.len(),
                p.header == header,
                p.extra == extra,
                p.attributes@ == entries_map(node.attributes@),
                forall|j: int|
                    0 <= j < i ==> match #[trigger] node.children@[j] {
                        Child::Element(m) => body_tags_known(m),
                        _ => true,
                    },
                !header.keep_comments ==> forall|j: int|
                    0 <= j < p.children@.len() ==> comment_free(#[trigger] p.children@[j]),
                header.keep_comments ==> p.children@.len() == i,
                children_built(p.children@, node.children@.subrange(0, i as int), header@),
                forall|j: int|
                    0 <= j < i ==> match #[trigger] node.children@[j] {
                        Child::Element(m) => body_valid(m, header@, Map::empty()),
                        _ => true,
                    },
            decreases node.children@.len() - i,
        {
            let ghost before0 = p.children@;
            let ghost pre1 = node.children@.subrange(0, i + 1);
            assert(pre1.subrange(0, pre1.len() - 1) =~= node.children@.subrange(0, i as int));
            assert(pre1[pre1.len() - 1] == node.children@[i as int]);
            match &node.children[i] {
                Child::Element(m) => {
                    assert(decreases_to!(*node => node.children@[i as int]));
                    let ghost before = p.children@;
                    match p.parse_child_element(m) {
                        Ok(()) => {
                            proof {
                                assert(p.children@.drop_last() =~= before);
                                assert forall|j: int| 0 <= j < p.children@.len() - 1 implies p.children@[j] == before[j] by {
                                    assert(p.children@.subrange(0, before.len() as int)[j] == p.children@[j]);
                                }
                                if !header.keep_comments {
                                    assert forall|j: int| 0 <= j < p.children@.len() implies comment_free(
                                        #[trigger] p.children@[j],
                                    ) by {
                                        if j < p.children@.len() - 1 {
                                            assert(p.children@[j] == before[j]);
                                        } else {
                                            assert(p.children@[j] == p.children@.last());
                                        }
                                    }
                                }
                            }
                        },
                        Err(e) => {
                            return Err(e);
                        },
                    }
                },
                Child::Text(t) => {
                    let ghost before = p.children@;
                    p.parse_child_text(t.clone());
                    assert(p.children@.drop_last() =~= before);
                    proof {
                        if !header.keep_comments {
                            assert forall|j: int| 0 <= j < p.children@.len() implies comment_free(
                                #[trigger] p.children@[j],
                            ) by {
                                if j < before.len() {
                                    assert(p.children@[j] == before[j]);
                                }
                            }
                        }
                    }
                },
                Child::Comment(t) => {
                    let ghost before = p.children@;
                    p.parse_child_comment(t.clone());
                    if header.keep_comments {
                        assert(p.children@.drop_last() =~= before);
                    }
                },
            }
            i = i + 1;
        }
        assert(node.children@.subrange(0, node.children@.len() as int) =~= node.children@);
        p.build(&node.tag)
    }
}

/// Builds the children of a markup element. Comments are left out unless
/// the context keeps them; a leaf kind takes no element children.
pub fn parse_children(node: &Node, header: &Header, leaf: bool) -> (r: Result<Vec<BodyElement>, Error>)
    ensures
        r is Ok ==> forall|i: int|
            0 <= i < node.children@.len() ==> match #[trigger] node.children@[i] {
                Child::Element(m) => body_tags_known(m),
                _ => true,
            },
        r is Ok && !header.keep_comments ==> forall|i: int|
            0 <= i < r->Ok_0@.len() ==> comment_free(#[trigger] r->Ok_0@[i]),
        r is Ok && header.keep_comments ==> r->Ok_0@.len() == node.children@.len(),
        r is Ok ==> children_built(r->Ok_0@, node.children@, header@),
        r is Ok <==> children_valid(node.children@, header@, leaf),
        forall|i: int| #[trigger] first_unknown_child(node.children@, header@, leaf, i) ==> r is Err && r->Err_0@
            == ErrorView::UnknownElement(node.children@[i]->Element_0.tag@),
    decreases *node, 0int,
{
    let mut out: Vec<BodyElement> = Vec::new();
    assert(node.children@.subrange(0, 0).len() == 0);
    let mut i: usize = 0;
    while i < node.children.len()
        invariant
            i <= node.children@.len(),
            forall|j: int|
                0 <= j < i ==> match #[trigger] node.children@[j] {
                    Child::Element(m) => body_tags_known(m),
                    _ => true,
                },
            !header.keep_comments ==> forall|j: int| 0 <= j < out@.len() ==> comment_free(#[trigger] out@[j]),
            header.keep_comments ==> out@.len() == i,
            children_built(out@, node.children@.subrange(0, i as int), header@),
            forall|j: int|
                0 <= j < i ==> match #[trigger] node.children@[j] {
                    Child::Element(m) => !leaf && body_valid(m, header@, Map::empty()),
                    _ => true,
                },
        decreases node.children@.len() - i,
    {
        let ghost before = out@;
        let ghost pre1 = node.children@.subrange(0, i + 1);
        assert(pre1.subrange(0, pre1.len() - 1) =~= node.children@.subrange(0, i as int));
        assert(pre1[pre1.len() - 1] == node.children@[i as int]);
        match &node.children[i] {
            Child::Element(m) => {
                if leaf {
                    return Err(Error::InvalidChild);
                }
                assert(decreases_to!(*node => node.children@[i as int]));
                match parse_body_element(m, header, None) {
                    Ok(e) => {
                        out.push(e);
                        assert(out@.drop_last() =~= before);
                    },
                    Err(e) => {
                        return Err(e);
                    },
                }
            },
            Child::Text(t) => {
                out.push(BodyElement::Raw(t.clone()));
                assert(out@.drop_last() =~= before);
            },
            Child::Comment(t) => {
                if header.keep_comments {
                    out.push(BodyElement::Comment(t.clone()));
                    assert(out@.drop_last() =~= before);
                }
            },
        }
        i = i + 1;
    }
    assert(node.children@.subrange(0, node.children@.len() as int) =~= node.children@);
    Ok(out)
}

} // verus!
