use vstd::prelude::*;
use crate::attributes::entries_map;
use crate::body::kind_of;
use crate::error::{Error, ErrorView};
use crate::header::{Header, HeaderView};
use crate::node::{is_tag, Child, Node};
use crate::size::{parse_size, size_of, Size};

verus! {

/// The character data among a sequence of children, concatenated.
pub open spec fn text_content(cs: Seq<Child>) -> Seq<char>
    decreases cs.len(),
{
    if cs.len() == 0 {
        Seq::empty()
    } else {
        text_content(cs.drop_last()) + match cs.last() {
            Child::Text(t) => t@,
            _ => Seq::empty(),
        }
    }
}

/// The breakpoint that an `mj-breakpoint` element declares, if its width is a valid size.
pub open spec fn breakpoint_value(n: Node) -> Option<Size> {
    let a = entries_map(n.attributes@);
    if a.contains_key("width"@) {
        size_of(a["width"@])
    } else {
        None
    }
}

/// The effect of an `mj-font` element: it registers its `href` under its `name`.
pub open spec fn font_step(h: HeaderView, n: Node) -> Result<HeaderView, ErrorView> {
    let a = entries_map(n.attributes@);
    if !a.contains_key("name"@) {
        Err(ErrorView::MissingRequiredAttribute(n.tag@, "name"@))
    } else if !a.contains_key("href"@) {
        Err(ErrorView::MissingRequiredAttribute(n.tag@, "href"@))
    } else {
        Ok(HeaderView { fonts: h.fonts.insert(a["name"@], a["href"@]), ..h })
    }
}

/// Whether no child is an element.
pub open spec fn no_elements(cs: Seq<Child>) -> bool {
    forall|i: int| 0 <= i < cs.len() ==> !(#[trigger] cs[i] is Element)
}

/// The tags that `mj-attributes` may register defaults for.
pub open spec fn defaults_target(t: Seq<char>) -> bool {
    kind_of(t) is Some || t == "mj-body"@
}

/// The effect of the children of an `mj-attributes` element: each element
/// child, which must name a body kind and hold no element, registers its
/// attributes as defaults for its tag.
pub open spec fn attributes_step(h: HeaderView, cs: Seq<Child>) -> Result<HeaderView, ErrorView>
    decreases cs.len(),
{
    if cs.len() == 0 {
        Ok(h)
    } else {
        match attributes_step(h, cs.drop_last()) {
            Ok(h1) => match cs.last() {
                Child::Element(m) => if !defaults_target(m.tag@) {
                    Err(ErrorView::UnknownElement(m.tag@))
                } else if !no_elements(m.children@) {
                    Err(ErrorView::InvalidChild)
                } else {
                    Ok(HeaderView { defaults: h1.defaults.push((m.tag@, entries_map(m.attributes@))), ..h1 })
                },
                _ => Ok(h1),
            },
            Err(e) => Err(e),
        }
    }
}

/// The head kinds that hold no element.
pub open spec fn head_leaf(t: Seq<char>) -> bool {
    t == "mj-title"@ || t == "mj-preview"@ || t == "mj-breakpoint"@ || t == "mj-font"@
}

/// The effect of one child of the head on the rendering context.
pub open spec fn head_child(h: HeaderView, c: Child) -> Result<HeaderView, ErrorView> {
    match c {
        Child::Element(m) => {
            if m.tag@ == "mj-attributes"@ {
                attributes_step(h, m.children@)
            } else if !head_leaf(m.tag@) {
                Err(ErrorView::UnknownElement(m.tag@))
            } else if !no_elements(m.children@) {
                Err(ErrorView::InvalidChild)
            } else if m.tag@ == "mj-title"@ {
                Ok(HeaderView { title: text_content(m.children@), ..h })
            } else if m.tag@ == "mj-preview"@ {
                Ok(HeaderView { preview: text_content(m.children@), ..h })
            } else if m.tag@ == "mj-breakpoint"@ {
                match breakpoint_value(m) {
                    Some(s) => Ok(HeaderView { breakpoint: s, ..h }),
                    None => Ok(h),
                }
            } else if m.tag@ == "mj-font"@ {
                font_step(h, m)
            } else {
                Err(ErrorView::UnknownElement(m.tag@))
            }
        },
        _ => Ok(h),
    }
}

/// The effect of the head's children, applied in document order; the first
/// failure ends it.
pub open spec fn head_apply(h: HeaderView, cs: Seq<Child>) -> Result<HeaderView, ErrorView>
    decreases cs.len(),
{
    if cs.len() == 0 {
        Ok(h)
    } else {
        match head_apply(h, cs.drop_last()) {
            Ok(h1) => head_child(h1, cs.last()),
            Err(e) => Err(e),
        }
    }
}

proof fn lemma_attributes_step_flag(h: HeaderView, cs: Seq<Child>)
    requires
        attributes_step(h, cs) is Ok,
    ensures
        attributes_step(h, cs)->Ok_0.keep_comments == h.keep_comments,
    decreases cs.len(),
{
    if cs.len() > 0 {
        lemma_attributes_step_flag(h, cs.drop_last());
    }
}

/// The head never changes whether comments are kept.
pub proof fn lemma_head_apply_flag(h: HeaderView, cs: Seq<Child>)
    requires
        head_apply(h, cs) is Ok,
    ensures
        head_apply(h, cs)->Ok_0.keep_comments == h.keep_comments,
    decreases cs.len(),
{
    if cs.len() > 0 {
        lemma_head_apply_flag(h, cs.drop_last());
        let h1 = head_apply(h, cs.drop_last())->Ok_0;
        if let Child::Element(m) = cs.last() {
            if m.tag@ == "mj-attributes"@ {
                lemma_attributes_step_flag(h1, m.children@);
            }
        }
    }
}

/// The character data among `cs`, concatenated.
pub fn collect_text(cs: &Vec<Child>) -> (r: String)
    ensures
        r@ == text_content(cs@),
{
    let mut r = String::new();
    let mut i: usize = 0;
    while i < cs.len()
        invariant
            i <= cs@.len(),
            r@ == text_content(cs@.subrange(0, i as int)),
        decreases cs@.len() - i,
    {
        assert(cs@.subrange(0, i + 1).drop_last() =~= cs@.subrange(0, i as int));
        if let Child::Text(t) = &cs[i] {
            r.append(t.as_str());
        } else {
            assert(r@ =~= r@ + Seq::<char>::empty());
        }
        i = i + 1;
    }
    assert(cs@.subrange(0, cs@.len() as int) =~= cs@);
    r
}

/// The `mj-breakpoint` element: it sets the width that separates mobile
/// from desktop layout.
pub struct MJBreakpoint {
    pub value: Option<Size>,
}

impl MJBreakpoint {
    pub fn parse(node: &Node) -> (r: Result<MJBreakpoint, Error>)
        ensures
            r == Ok::<MJBreakpoint, Error>(MJBreakpoint { value: breakpoint_value(*node) }),
    {
        let attributes = node.local_attributes();
        let key = String::from_str("width");
        let value = match attributes.get(&key) {
            Some(v) => parse_size(v.as_str()),
            None => None,
        };
        Ok(MJBreakpoint { value })
    }

    /// A valid width replaces the context's breakpoint; otherwise nothing changes.
    pub fn update_header(&self, header: &mut Header)
        ensures
            final(header)@ == match self.value {
                Some(s) => HeaderView { breakpoint: s, ..old(header)@ },
                None => old(header)@,
            },
    {
        if let Some(s) = self.value {
            header.breakpoint = s;
        }
    }
}

fn apply_font(node: &Node, header: &mut Header) -> (r: Result<(), Error>)
    ensures
        match font_step(old(header)@, *node) {
            Ok(h) => r is Ok && final(header)@ == h,
            Err(e) => r is Err && r->Err_0@ == e,
        },
{
    let attributes = node.local_attributes();
    let name_key = String::from_str("name");
    let href_key = String::from_str("href");
    let name = match attributes.get(&name_key) {
        Some(v) => v.clone(),
        None => {
            return Err(Error::MissingRequiredAttribute(node.tag.clone(), name_key));
        },
    };
    let href = match attributes.get(&href_key) {
        Some(v) => v.clone(),
        None => {
            return Err(Error::MissingRequiredAttribute(node.tag.clone(), href_key));
        },
    };
    header.fonts.add(name, href);
    Ok(())
}

/// Whether no child is an element.
pub fn check_no_elements(cs: &Vec<Child>) -> (r: bool)
    ensures
        r == no_elements(cs@),
{
    let mut i: usize = 0;
    while i < cs.len()
        invariant
            i <= cs@.len(),
            forall|j: int| 0 <= j < i ==> !(#[trigger] cs@[j] is Element),
        decreases cs@.len() - i,
    {
        if let Child::Element(_) = &cs[i] {
            return false;
        }
        i = i + 1;
    }
    true
}

fn apply_attributes(cs: &Vec<Child>, header: &mut Header) -> (r: Result<(), Error>)
    ensures
        match attributes_step(old(header)@, cs@) {
            Ok(h) => r is Ok && final(header)@ == h,
            Err(e) => r is Err && r->Err_0@ == e,
        },
{
    let mut i: usize = 0;
    while i < cs.len()
        invariant
            i <= cs@.len(),
            attributes_step(old(header)@, cs@.subrange(0, i as int)) == Ok::<HeaderView, ErrorView>(header@),
        decreases cs@.len() - i,
    {
        assert(cs@.subrange(0, i + 1).drop_last() =~= cs@.subrange(0, i as int));
        if let Child::Element(m) = &cs[i] {
            let known = is_tag(&m.tag, "mj-section") || is_tag(&m.tag, "mj-column") || is_tag(&m.tag, "mj-text")
                || is_tag(&m.tag, "mj-body");
            if !known {
                proof {
                    lemma_attributes_step_err(old(header)@, cs@, i + 1);
                }
                return Err(Error::UnknownElement(m.tag.clone()));
            }
            if !check_no_elements(&m.children) {
                proof {
                    lemma_attributes_step_err(old(header)@, cs@, i + 1);
                }
                return Err(Error::InvalidChild);
            }
            let a = m.local_attributes();
            header.add_defaults(m.tag.clone(), a);
        }
        i = i + 1;
    }
    assert(cs@.subrange(0, cs@.len() as int) =~= cs@);
    Ok(())
}

proof fn lemma_attributes_step_err(h: HeaderView, cs: Seq<Child>, k: int)
    requires
        0 <= k <= cs.len(),
        attributes_step(h, cs.subrange(0, k)) is Err,
    ensures
        attributes_step(h, cs) == attributes_step(h, cs.subrange(0, k)),
    decreases cs.len() - k,
{
    if k < cs.len() {
        assert(cs.subrange(0, k + 1).drop_last() =~= cs.subrange(0, k));
        lemma_attributes_step_err(h, cs, k + 1);
    } else {
        assert(cs.subrange(0, k) =~= cs);
    }
}

fn apply_head_child(c: &Child, header: &mut Header) -> (r: Result<(), Error>)
    ensures
        match head_child(old(header)@, *c) {
            Ok(h) => r is Ok && final(header)@ == h,
            Err(e) => r is Err && r->Err_0@ == e,
        },
{
    match c {
        Child::Element(m) => {
            if is_tag(&m.tag, "mj-attributes") {
                return apply_attributes(&m.children, header);
            }
            let leaf = is_tag(&m.tag, "mj-title") || is_tag(&m.tag, "mj-preview") || is_tag(&m.tag, "mj-breakpoint")
                || is_tag(&m.tag, "mj-font");
            if !leaf {
                return Err(Error::UnknownElement(m.tag.clone()));
            }
            if !check_no_elements(&m.children) {
                return Err(Error::InvalidChild);
            }
            if is_tag(&m.tag, "mj-title") {
                header.title = collect_text(&m.children);
                Ok(())
            } else if is_tag(&m.tag, "mj-preview") {
                header.preview = collect_text(&m.children);
                Ok(())
            } else if is_tag(&m.tag, "mj-breakpoint") {
                match MJBreakpoint::parse(m) {
                    Ok(b) => {
                        b.update_header(header);
                        Ok(())
                    },
                    Err(e) => Err(e),
                }
            } else {
                apply_font(m, header)
            }
        },
        _ => Ok(()),
    }
}

/// Applies the children of the head to the rendering context, in document order.
pub fn apply_head(node: &Node, header: &mut Header) -> (r: Result<(), Error>)
    ensures
        match head_apply(old(header)@, node.children@) {
            Ok(h) => r is Ok && final(header)@ == h,
            Err(e) => r is Err && r->Err_0@ == e,
        },
{
    let mut i: usize = 0;
    while i < node.children.len()
        invariant
            i <= node.children@.len(),
            head_apply(old(header)@, node.children@.subrange(0, i as int)) == Ok::<HeaderView, ErrorView>(header@),
        decreases node.children@.len() - i,
    {
        assert(node.children@.subrange(0, i + 1).drop_last() =~= node.children@.subrange(0, i as int));
        match apply_head_child(&node.children[i], header) {
            Ok(()) => {},
            Err(e) => {
                proof {
                    lemma_head_apply_err(old(header)@, node.children@, i + 1);
                }
                return Err(e);
            },
        }
        i = i + 1;
    }
    assert(node.children@.subrange(0, node.children@.len() as int) =~= node.children@);
    Ok(())
}

/// A failure among the first `k` children is the failure of the whole head.
proof fn lemma_head_apply_err(h: HeaderView, cs: Seq<Child>, k: int)
    requires
        0 <= k <= cs.len(),
        head_apply(h, cs.subrange(0, k)) is Err,
    ensures
        head_apply(h, cs) == head_apply(h, cs.subrange(0, k)),
    decreases cs.len() - k,
{
    if k < cs.len() {
        assert(cs.subrange(0, k + 1).drop_last() =~= cs.subrange(0, k));
        lemma_head_apply_err(h, cs, k + 1);
    } else {
        assert(cs.subrange(0, k) =~= cs);
    }
}

} // verus!
