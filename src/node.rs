use vstd::prelude::*;
use crate::attributes::{entries_map, Attributes};
use crate::document::{is_known_tag, known_tag, tree_known};
use crate::error::{Error, ErrorView};
use crate::tokens::{toks_view, TokenView, XmlToken};

verus! {

broadcast use vstd::seq::axiom_seq_subrange_decreases, vstd::seq::axiom_seq_index_decreases,
    vstd::std_specs::vec::axiom_vec_decreases_to_view;

/// An element of the markup before its kind is looked up.
pub struct Node {
    pub tag: String,
    /// Declared attributes, in document order.
    pub attributes: Vec<(String, String)>,
    pub children: Vec<Child>,
    /// Written as `<tag/>`.
    pub closed: bool,
}

/// The content of an element.
pub enum Child {
    Element(Node),
    Text(String),
    Comment(String),
}

/// The attribute tokens of a list of declared attributes.
pub open spec fn attr_tokens(a: Seq<(String, String)>) -> Seq<TokenView>
    decreases a.len(),
{
    if a.len() == 0 {
        Seq::empty()
    } else {
        attr_tokens(a.drop_last()).push(TokenView::Attribute(a.last().0@, a.last().1@))
    }
}

/// The tokens that spell an element.
pub open spec fn node_tokens(n: Node) -> Seq<TokenView>
    decreases n,
{
    seq![TokenView::Start(n.tag@)] + attr_tokens(n.attributes@) + if n.closed {
        seq![TokenView::Empty]
    } else {
        seq![TokenView::Open] + children_tokens(n.children@) + seq![TokenView::Close(n.tag@)]
    }
}

/// The tokens that spell a sequence of children.
pub open spec fn children_tokens(cs: Seq<Child>) -> Seq<TokenView>
    decreases cs,
{
    if cs.len() == 0 {
        Seq::empty()
    } else {
        children_tokens(cs.subrange(0, cs.len() - 1)) + match cs[cs.len() - 1] {
            Child::Element(m) => node_tokens(m),
            Child::Text(t) => seq![TokenView::Text(t@)],
            Child::Comment(t) => seq![TokenView::Comment(t@)],
        }
    }
}

impl Node {
    /// The declared attributes as a map; a later declaration of a name wins.
    pub fn local_attributes(&self) -> (r: Attributes)
        ensures
            r@ == entries_map(self.attributes@),
    {
        let mut r = Attributes::new();
        let mut i: usize = 0;
        while i < self.attributes.len()
            invariant
                i <= self.attributes@.len(),
                r@ == entries_map(self.attributes@.subrange(0, i as int)),
            decreases self.attributes@.len() - i,
        {
            let e = &self.attributes[i];
            assert(self.attributes@.subrange(0, i + 1).drop_last() =~= self.attributes@.subrange(0, i as int));
            r.set(e.0.clone(), e.1.clone());
            i = i + 1;
        }
        assert(self.attributes@.subrange(0, self.attributes@.len() as int) =~= self.attributes@);
        r
    }
}

/// Whether `s` reads `lit`.
pub fn is_tag(s: &String, lit: &str) -> (r: bool)
    ensures
        r == (s@ == lit@),
{
    let l = String::from_str(lit);
    *s == l
}

proof fn lemma_toks_view_split(s: Seq<XmlToken>, a: int, b: int, c: int)
    requires
        0 <= a <= b <= c <= s.len(),
    ensures
        toks_view(s.subrange(a, c)) == toks_view(s.subrange(a, b)) + toks_view(s.subrange(b, c)),
{
    assert(toks_view(s.subrange(a, c)) =~= toks_view(s.subrange(a, b)) + toks_view(s.subrange(b, c)));
}

proof fn lemma_toks_view_one(s: Seq<XmlToken>, a: int)
    requires
        0 <= a < s.len(),
    ensures
        toks_view(s.subrange(a, a + 1)) == seq![s[a]@],
{
    assert(toks_view(s.subrange(a, a + 1)) =~= seq![s[a]@]);
}

/// The tokens that spell one child.
pub open spec fn child_tokens(c: Child) -> Seq<TokenView> {
    match c {
        Child::Element(m) => node_tokens(m),
        Child::Text(t) => seq![TokenView::Text(t@)],
        Child::Comment(t) => seq![TokenView::Comment(t@)],
    }
}

/// Whether the tokens `ts` spell the element `n` from position `pos` on.
pub open spec fn spells_at(ts: Seq<TokenView>, pos: int, n: Node) -> bool {
    0 <= pos && pos + node_tokens(n).len() <= ts.len() && ts.subrange(pos, pos + node_tokens(n).len())
        == node_tokens(n)
}

pub proof fn lemma_spells_index(ts: Seq<TokenView>, pos: int, n: Node, j: int)
    requires
        spells_at(ts, pos, n),
        0 <= j < node_tokens(n).len(),
    ensures
        ts[pos + j] == node_tokens(n)[j],
{
    assert(ts.subrange(pos, pos + node_tokens(n).len())[j] == ts[pos + j]);
}

proof fn lemma_attr_tokens_shape(a: Seq<(String, String)>)
    ensures
        attr_tokens(a).len() == a.len(),
        forall|i: int| 0 <= i < a.len() ==> #[trigger] attr_tokens(a)[i] is Attribute,
    decreases a.len(),
{
    if a.len() > 0 {
        lemma_attr_tokens_shape(a.drop_last());
        assert forall|i: int| 0 <= i < a.len() implies #[trigger] attr_tokens(a)[i] is Attribute by {
            if i < a.len() - 1 {
                assert(attr_tokens(a)[i] == attr_tokens(a.drop_last())[i]);
            }
        }
    }
}

pub proof fn lemma_node_tokens_shape(n: Node)
    ensures
        node_tokens(n)[0] == TokenView::Start(n.tag@),
        forall|i: int| 0 <= i < (n.attributes@.len() as int) ==> #[trigger] node_tokens(n)[1 + i] is Attribute,
        n.closed ==> node_tokens(n).len() == 2 + (n.attributes@.len() as int) && node_tokens(n)[1
            + (n.attributes@.len() as int)] == TokenView::Empty,
        !n.closed ==> node_tokens(n).len() == 3 + (n.attributes@.len() as int) + (children_tokens(n.children@).len() as int)
            && node_tokens(n)[1 + (n.attributes@.len() as int)] == TokenView::Open && node_tokens(n)[2
            + (n.attributes@.len() as int) + (children_tokens(n.children@).len() as int)] == TokenView::Close(n.tag@) && (
        forall|j: int|
            0 <= j < (children_tokens(n.children@).len() as int) ==> #[trigger] node_tokens(n)[2 + (n.attributes@.len() as int)
                + j] == children_tokens(n.children@)[j]),
{
    lemma_attr_tokens_shape(n.attributes@);
    let a = attr_tokens(n.attributes@);
    let head = seq![TokenView::Start(n.tag@)] + a;
    assert forall|i: int| 0 <= i < (n.attributes@.len() as int) implies #[trigger] node_tokens(n)[1 + i] is Attribute by {
        assert(node_tokens(n)[1 + i] == a[i]);
    }
    if !n.closed {
        let ct = children_tokens(n.children@);
        assert forall|j: int| 0 <= j < ct.len() implies #[trigger] node_tokens(n)[2 + (n.attributes@.len() as int) + j]
            == ct[j] by {
            assert((seq![TokenView::Open] + ct + seq![TokenView::Close(n.tag@)])[1 + j] == ct[j]);
        }
    }
}

proof fn lemma_children_step(cs: Seq<Child>, k: int)
    requires
        0 <= k < cs.len(),
    ensures
        children_tokens(cs.subrange(0, k + 1)) == children_tokens(cs.subrange(0, k)) + child_tokens(cs[k]),
{
    let s = cs.subrange(0, k + 1);
    assert(s.subrange(0, s.len() - 1) =~= cs.subrange(0, k));
    assert(s[s.len() - 1] == cs[k]);
}

proof fn lemma_children_prefix(cs: Seq<Child>, k: int)
    requires
        0 <= k <= cs.len(),
    ensures
        children_tokens(cs.subrange(0, k)).len() <= children_tokens(cs).len(),
        forall|j: int|
            0 <= j < children_tokens(cs.subrange(0, k)).len() ==> #[trigger] children_tokens(cs.subrange(0, k))[j]
                == children_tokens(cs)[j],
    decreases cs.len(),
{
    if k == cs.len() {
        assert(cs.subrange(0, k) =~= cs);
    } else {
        let init = cs.subrange(0, cs.len() - 1);
        assert(init.subrange(0, k) =~= cs.subrange(0, k));
        lemma_children_prefix(init, k);
        assert forall|j: int|
            0 <= j < children_tokens(cs.subrange(0, k)).len() implies #[trigger] children_tokens(cs.subrange(0, k))[j]
                == children_tokens(cs)[j] by {
            assert(children_tokens(cs)[j] == children_tokens(init)[j]);
        }
    }
}

/// Inside an element spelled from `pos`, after the tokens of its first `k`
/// children: the next token closes it, or starts child `k`.
proof fn lemma_next_token(ts: Seq<TokenView>, pos: int, n: Node, open_end: int, p: int, k: int)
    requires
        spells_at(ts, pos, n),
        !n.closed,
        open_end == pos + 2 + (n.attributes@.len() as int),
        0 <= k <= n.children@.len(),
        p == open_end + children_tokens(n.children@.subrange(0, k)).len(),
    ensures
        p < ts.len(),
        k == n.children@.len() ==> ts[p] == TokenView::Close(n.tag@) && p + 1 == pos + node_tokens(n).len(),
        k < n.children@.len() ==> p + child_tokens(n.children@[k]).len() == open_end + children_tokens(
            n.children@.subrange(0, k + 1),
        ).len() && (forall|j: int|
            0 <= j < child_tokens(n.children@[k]).len() ==> ts[p + j] == #[trigger] child_tokens(n.children@[k])[j])
            && match n.children@[k] {
            Child::Element(m) => ts[p] == TokenView::Start(m.tag@) && spells_at(ts, p, m),
            Child::Text(t) => ts[p] == TokenView::Text(t@),
            Child::Comment(t) => ts[p] == TokenView::Comment(t@),
        },
{
    lemma_node_tokens_shape(n);
    let ct = children_tokens(n.children@);
    let alen = n.attributes@.len() as int;
    if k == n.children@.len() {
        assert(n.children@.subrange(0, k) =~= n.children@);
        lemma_spells_index(ts, pos, n, 2 + alen + ct.len() as int);
    } else {
        let c = n.children@[k];
        let off = children_tokens(n.children@.subrange(0, k)).len();
        lemma_children_step(n.children@, k);
        lemma_children_prefix(n.children@, k + 1);
        let cst = child_tokens(c);
        assert forall|j: int| 0 <= j < cst.len() implies ts[p + j] == #[trigger] cst[j] by {
            assert(children_tokens(n.children@.subrange(0, k + 1))[off + j] == cst[j]);
            assert(ct[off + j] == cst[j]);
            lemma_spells_index(ts, pos, n, 2 + alen + off + j);
        }
        match c {
            Child::Element(m) => {
                lemma_node_tokens_shape(m);
                assert(ts.subrange(p, p + node_tokens(m).len()) =~= node_tokens(m));
            },
            _ => {},
        }
        assert(ts[p] == cst[0]);
    }
}

/// Reads the element that starts at `pos`; on success also returns the
/// position just past it, and the tokens in between spell the element.
/// Where the tokens from `pos` on spell an element whose tags all name
/// element kinds, it succeeds and stops just past that element. A start tag
/// that names no element kind fails as soon as it is read.
pub fn parse_node(toks: &Vec<XmlToken>, pos: usize) -> (r: Result<(Node, usize), Error>)
    requires
        pos < toks@.len(),
    ensures
        r matches Ok((n, end)) ==> pos < end <= toks@.len() && toks_view(toks@.subrange(pos as int, end as int))
            == node_tokens(n),
        !(toks@[pos as int] is Start) ==> r is Err,
        forall|n: Node|
            spells_at(toks_view(toks@), pos as int, n) && tree_known(n) ==> #[trigger] node_tokens(n).len() > 0
                && r is Ok && r->Ok_0.1 == pos + node_tokens(n).len(),
        toks@[pos as int] is Start && !known_tag(toks@[pos as int]->Start_0@) ==> r is Err && r->Err_0@
            == ErrorView::UnknownElement(toks@[pos as int]->Start_0@),
    decreases toks@.len() - pos,
{
    let ghost tv = toks_view(toks@);
    proof {
        assert forall|n: Node| spells_at(tv, pos as int, n) implies #[trigger] node_tokens(n).len() > 0
            && toks@[pos as int]@ == TokenView::Start(n.tag@) by {
            lemma_node_tokens_shape(n);
            lemma_spells_index(tv, pos as int, n, 0);
        }
    }
    let tag = match &toks[pos] {
        XmlToken::Start(t) => t.clone(),
        _ => {
            return Err(Error::InvalidChild);
        },
    };
    if !is_known_tag(&tag) {
        proof {
            assert forall|n: Node| spells_at(tv, pos as int, n) implies !tree_known(n) by {
                lemma_node_tokens_shape(n);
                lemma_spells_index(tv, pos as int, n, 0);
            }
        }
        return Err(Error::UnknownElement(tag));
    }
    let len = toks.len();
    let mut attributes: Vec<(String, String)> = Vec::new();
    let mut p: usize = pos + 1;
    proof {
        lemma_toks_view_one(toks@, pos as int);
        assert(toks@.subrange(pos + 1, pos + 1) =~= Seq::<XmlToken>::empty());
        assert(toks_view(toks@.subrange(pos + 1, pos + 1)) =~= Seq::<TokenView>::empty());
    }
    while p < toks.len() && toks[p].is_attribute()
        invariant
            pos < p <= toks@.len(),
            tv == toks_view(toks@),
            toks_view(toks@.subrange(pos + 1, p as int)) == attr_tokens(attributes@),
            forall|n: Node| #[trigger] spells_at(tv, pos as int, n) ==> p - (pos + 1) <= (n.attributes@.len() as int),
        decreases toks@.len() - p,
    {
        proof {
            assert forall|n: Node| #[trigger] spells_at(tv, pos as int, n) implies p + 1 - (pos + 1)
                <= (n.attributes@.len() as int) by {
                lemma_node_tokens_shape(n);
                if p - (pos + 1) == (n.attributes@.len() as int) {
                    lemma_spells_index(tv, pos as int, n, 1 + (n.attributes@.len() as int));
                }
            }
        }
        if let XmlToken::Attribute(k, v) = &toks[p] {
            let entry = (k.clone(), v.clone());
            proof {
                lemma_toks_view_split(toks@, pos + 1, p as int, p + 1);
                lemma_toks_view_one(toks@, p as int);
                assert(attributes@.push(entry).drop_last() =~= attributes@);
            }
            attributes.push(entry);
        }
        p = p + 1;
    }
    proof {
        assert forall|n: Node| #[trigger] spells_at(tv, pos as int, n) implies p == pos + 1 + (n.attributes@.len() as int)
            && p < toks@.len() by {
            lemma_node_tokens_shape(n);
            if p - (pos + 1) < (n.attributes@.len() as int) {
                lemma_spells_index(tv, pos as int, n, 1 + (p - (pos + 1)));
            }
        }
    }
    if p >= toks.len() {
        return Err(Error::InvalidChild);
    }
    let attr_end = p;
    proof {
        lemma_toks_view_split(toks@, pos as int, pos + 1, attr_end as int);
        lemma_toks_view_one(toks@, attr_end as int);
        lemma_toks_view_split(toks@, pos as int, attr_end as int, attr_end + 1);
        assert forall|n: Node| #[trigger] spells_at(tv, pos as int, n) implies toks@[attr_end as int]@ == (if n.closed {
            TokenView::Empty
        } else {
            TokenView::Open
        }) by {
            lemma_node_tokens_shape(n);
            lemma_spells_index(tv, pos as int, n, 1 + (n.attributes@.len() as int));
        }
    }
    match &toks[p] {
        XmlToken::Empty => {
            let n = Node { tag, attributes, children: Vec::new(), closed: true };
            proof {
                assert forall|m: Node| spells_at(tv, pos as int, m) implies #[trigger] node_tokens(m).len() > 0
                    && p + 1 == pos + node_tokens(m).len() by {
                    lemma_node_tokens_shape(m);
                }
            }
            return Ok((n, p + 1));
        },
        XmlToken::Open => {},
        _ => {
            return Err(Error::InvalidChild);
        },
    }
    p = p + 1;
    let open_end = p;
    let mut children: Vec<Child> = Vec::new();
    proof {
        assert(toks@.subrange(open_end as int, open_end as int) =~= Seq::<XmlToken>::empty());
        assert(toks_view(toks@.subrange(open_end as int, open_end as int)) =~= Seq::<TokenView>::empty());
        assert forall|n: Node| #[trigger] spells_at(tv, pos as int, n) && tree_known(n) implies !n.closed && exists|k: int|
            0 <= k <= n.children@.len() && p == open_end + children_tokens(n.children@.subrange(0, k)).len() by {
            assert(n.children@.subrange(0, 0) =~= Seq::<Child>::empty());
        }
    }
    loop
        invariant
            open_end <= p <= toks@.len(),
            open_end == attr_end + 1,
            toks@[pos as int] is Start,
            toks@[pos as int]@ == TokenView::Start(tag@),
            known_tag(tag@),
            pos < attr_end < toks@.len(),
            tv == toks_view(toks@),
            toks_view(toks@.subrange(pos as int, open_end as int)) == seq![TokenView::Start(tag@)]
                + attr_tokens(attributes@) + seq![TokenView::Open],
            toks_view(toks@.subrange(open_end as int, p as int)) == children_tokens(children@),
            forall|n: Node| #[trigger] spells_at(tv, pos as int, n) ==> attr_end == pos + 1 + (n.attributes@.len() as int),
            forall|n: Node| #[trigger] spells_at(tv, pos as int, n) && tree_known(n) ==> !n.closed && exists|k: int|
                0 <= k <= n.children@.len() && p == open_end + children_tokens(n.children@.subrange(0, k)).len(),
        decreases toks@.len() - p,
    {
        proof {
            assert forall|n: Node| #[trigger] spells_at(tv, pos as int, n) && tree_known(n) implies p < toks@.len() by {
                let k = choose|k: int|
                    0 <= k <= n.children@.len() && p == open_end + children_tokens(n.children@.subrange(0, k)).len();
                lemma_next_token(tv, pos as int, n, open_end as int, p as int, k);
            }
        }
        if p >= toks.len() {
            return Err(Error::InvalidChild);
        }
        proof {
            lemma_toks_view_one(toks@, p as int);
            lemma_toks_view_split(toks@, open_end as int, p as int, p + 1);
        }
        let ghost before = children@;
        let ghost p0 = p;
        match &toks[p] {
            XmlToken::Close(name) => {
                proof {
                    assert forall|n: Node| #[trigger] spells_at(tv, pos as int, n) && tree_known(n) implies p + 1 == pos + node_tokens(
                        n,
                    ).len() && name@ == n.tag@ by {
                        let k = choose|k: int|
                            0 <= k <= n.children@.len() && p == open_end + children_tokens(n.children@.subrange(0, k)).len();
                        lemma_next_token(tv, pos as int, n, open_end as int, p as int, k);
                        if k < n.children@.len() {
                            match n.children@[k] {
                                Child::Element(m) => {},
                                _ => {},
                            }
                        }
                    }
                }
                if *name == tag {
                    let n = Node { tag, attributes, children, closed: false };
                    proof {
                        lemma_toks_view_split(toks@, pos as int, open_end as int, p as int);
                        lemma_toks_view_split(toks@, pos as int, p as int, p + 1);
                        assert(node_tokens(n) =~= toks_view(toks@.subrange(pos as int, p + 1)));
                        assert forall|m: Node| spells_at(tv, pos as int, m) && tree_known(m) implies #[trigger] node_tokens(m).len() > 0
                            && p + 1 == pos + node_tokens(m).len() by {
                        }
                    }
                    return Ok((n, p + 1));
                } else {
                    proof {
                        assert forall|n: Node| #[trigger] spells_at(tv, pos as int, n) && tree_known(n) implies false by {
                            lemma_node_tokens_shape(n);
                            lemma_spells_index(tv, pos as int, n, 0);
                            assert(tv[pos as int] == toks@[pos as int]@);
                        }
                    }
                    return Err(Error::InvalidChild);
                }
            },
            XmlToken::Start(_) => {
                proof {
                    assert forall|n: Node| #[trigger] spells_at(tv, pos as int, n) && tree_known(n) implies exists|m: Node|
                        #[trigger] spells_at(tv, p as int, m) && exists|k: int|
                            0 <= k < n.children@.len() && n.children@[k] == Child::Element(m) && p == open_end
                                + children_tokens(n.children@.subrange(0, k)).len() by {
                        let k = choose|k: int|
                            0 <= k <= n.children@.len() && p == open_end + children_tokens(n.children@.subrange(0, k)).len();
                        lemma_next_token(tv, pos as int, n, open_end as int, p as int, k);
                        match n.children@[k] {
                            Child::Element(m) => {
                                assert(spells_at(tv, p as int, m));
                            },
                            _ => {},
                        }
                    }
                }
                match parse_node(toks, p) {
                    Ok((child, q)) => {
                        proof {
                            lemma_toks_view_split(toks@, open_end as int, p as int, q as int);
                            let c = Child::Element(child);
                            assert(children@.push(c).subrange(0, children@.len() as int) =~= children@);
                            assert forall|n: Node| #[trigger] spells_at(tv, pos as int, n) && tree_known(n) implies !n.closed && exists|k: int|
                                0 <= k <= n.children@.len() && q == open_end + children_tokens(n.children@.subrange(0, k)).len() by {
                                let m = choose|m: Node| #[trigger] spells_at(tv, p as int, m) && exists|k: int|
                                    0 <= k < n.children@.len() && n.children@[k] == Child::Element(m) && p == open_end
                                        + children_tokens(n.children@.subrange(0, k)).len();
                                let k = choose|k: int|
                                    0 <= k < n.children@.len() && n.children@[k] == Child::Element(m) && p == open_end
                                        + children_tokens(n.children@.subrange(0, k)).len();
                                lemma_children_step(n.children@, k);
                                assert(q == open_end + children_tokens(n.children@.subrange(0, k + 1)).len());
                            }
                        }
                        children.push(Child::Element(child));
                        p = q;
                    },
                    Err(e) => {
                        return Err(e);
                    },
                }
            },
            XmlToken::Text(t) => {
                let c = Child::Text(t.clone());
                proof {
                    assert(children@.push(c).subrange(0, children@.len() as int) =~= children@);
                    assert forall|n: Node| #[trigger] spells_at(tv, pos as int, n) && tree_known(n) implies !n.closed && exists|k: int|
                        0 <= k <= n.children@.len() && p + 1 == open_end + children_tokens(n.children@.subrange(0, k)).len() by {
                        let k = choose|k: int|
                            0 <= k <= n.children@.len() && p == open_end + children_tokens(n.children@.subrange(0, k)).len();
                        lemma_next_token(tv, pos as int, n, open_end as int, p as int, k);
                        if k < n.children@.len() {
                            match n.children@[k] {
                                Child::Element(m) => {},
                                _ => {},
                            }
                            assert(p + 1 == open_end + children_tokens(n.children@.subrange(0, k + 1)).len());
                        }
                    }
                }
                children.push(c);
                p = p + 1;
            },
            XmlToken::Comment(t) => {
                let c = Child::Comment(t.clone());
                proof {
                    assert(children@.push(c).subrange(0, children@.len() as int) =~= children@);
                    assert forall|n: Node| #[trigger] spells_at(tv, pos as int, n) && tree_known(n) implies !n.closed && exists|k: int|
                        0 <= k <= n.children@.len() && p + 1 == open_end + children_tokens(n.children@.subrange(0, k)).len() by {
                        let k = choose|k: int|
                            0 <= k <= n.children@.len() && p == open_end + children_tokens(n.children@.subrange(0, k)).len();
                        lemma_next_token(tv, pos as int, n, open_end as int, p as int, k);
                        if k < n.children@.len() {
                            match n.children@[k] {
                                Child::Element(m) => {},
                                _ => {},
                            }
                            assert(p + 1 == open_end + children_tokens(n.children@.subrange(0, k + 1)).len());
                        }
                    }
                }
                children.push(c);
                p = p + 1;
            },
            _ => {
                proof {
                    assert forall|n: Node| #[trigger] spells_at(tv, pos as int, n) && tree_known(n) implies false by {
                        let k = choose|k: int|
                            0 <= k <= n.children@.len() && p == open_end + children_tokens(n.children@.subrange(0, k)).len();
                        lemma_next_token(tv, pos as int, n, open_end as int, p as int, k);
                        if k < n.children@.len() {
                            match n.children@[k] {
                                Child::Element(m) => {},
                                _ => {},
                            }
                        }
                    }
                }
                return Err(Error::InvalidChild);
            },
        }
    }
}

} // verus!
