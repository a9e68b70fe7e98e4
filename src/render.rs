use vstd::prelude::*;
use crate::attributes::Attributes;
use crate::body::{BodyElement, Component, Kind};
use crate::size::{decimal, parse_size, push_decimal, size_of, Size};

verus! {

broadcast use vstd::seq::axiom_seq_subrange_decreases, vstd::seq::axiom_seq_index_decreases,
    vstd::std_specs::vec::axiom_vec_decreases_to_view;

/// The value of an attribute, or nothing where it is unset.
pub open spec fn attr_text(a: Map<Seq<char>, Seq<char>>, name: Seq<char>) -> Seq<char> {
    if a.contains_key(name) {
        a[name]
    } else {
        Seq::empty()
    }
}

/// The number of columns among a sequence of elements.
pub open spec fn column_count(cs: Seq<BodyElement>) -> nat
    decreases cs.len(),
{
    if cs.len() == 0 {
        0
    } else {
        column_count(cs.drop_last()) + match cs.last() {
            BodyElement::Component(c) => if c.kind == Kind::Column { 1nat } else { 0nat },
            _ => 0nat,
        }
    }
}

/// The number of columns that share a row: at least one.
pub open spec fn row_size(cs: Seq<BodyElement>) -> nat {
    if column_count(cs) == 0 { 1 } else { column_count(cs) }
}

pub open spec fn section_open(a: Map<Seq<char>, Seq<char>>, width: nat) -> Seq<char> {
    "<div style=\"margin:0px auto;max-width:"@ + decimal(width) + "px;\"><table align=\"center\" border=\"0\" cellpadding=\"0\" cellspacing=\"0\" role=\"presentation\" style=\"width:100%;\"><tbody><tr><td style=\"direction:"@
        + attr_text(a, "direction"@) + ";text-align:"@ + attr_text(a, "text-align"@)
        + ";\"><!--[if mso | IE]><table role=\"presentation\" border=\"0\" cellpadding=\"0\" cellspacing=\"0\"><tr><![endif]-->"@
}

pub open spec fn section_close() -> Seq<char> {
    "<!--[if mso | IE]></tr></table><![endif]--></td></tr></tbody></table></div>"@
}

/// The size that a column's own `width` attribute gives, if any.
pub open spec fn column_size(a: Map<Seq<char>, Seq<char>>) -> Option<Size> {
    if a.contains_key("width"@) {
        size_of(a["width"@])
    } else {
        None
    }
}

pub open spec fn clamp(x: nat) -> nat {
    if x > u32::MAX { u32::MAX as nat } else { x }
}

/// The width in pixels of a column in `width` pixels shared by `row`
/// columns: its own width where it has one, else an equal share.
pub open spec fn column_width(a: Map<Seq<char>, Seq<char>>, width: nat, row: nat) -> nat {
    match column_size(a) {
        Some(Size::Pixel(w)) => w as nat,
        Some(Size::Percent(q)) => clamp(width * (q as nat) / 100),
        None => width / row,
    }
}

/// The class that names a column's width.
pub open spec fn column_class(a: Map<Seq<char>, Seq<char>>, row: nat) -> Seq<char> {
    match column_size(a) {
        Some(Size::Pixel(w)) => "mj-column-px-"@ + decimal(w as nat),
        Some(Size::Percent(q)) => "mj-column-per-"@ + decimal(q as nat),
        None => "mj-column-per-"@ + decimal(100nat / row),
    }
}

pub open spec fn column_open(a: Map<Seq<char>, Seq<char>>, width: nat, row: nat) -> Seq<char> {
    "<!--[if mso | IE]><td style=\"vertical-align:"@ + attr_text(a, "vertical-align"@) + ";width:"@
        + decimal(column_width(a, width, row)) + "px;\"><![endif]--><div class=\""@ + column_class(a, row)
        + " mj-outlook-group-fix\" style=\"font-size:0px;text-align:left;direction:"@ + attr_text(
        a,
        "direction"@,
    ) + ";display:inline-block;vertical-align:"@ + attr_text(a, "vertical-align"@)
        + ";width:100%;\"><table border=\"0\" cellpadding=\"0\" cellspacing=\"0\" role=\"presentation\" width=\"100%\"><tbody>"@
}

pub open spec fn column_close() -> Seq<char> {
    "</tbody></table></div><!--[if mso | IE]></td><![endif]-->"@
}

pub open spec fn text_open(a: Map<Seq<char>, Seq<char>>) -> Seq<char> {
    "<tr><td align=\""@ + attr_text(a, "align"@) + "\" style=\"font-size:0px;padding:"@ + attr_text(
        a,
        "padding"@,
    ) + ";word-break:break-word;\"><div style=\"font-family:"@ + attr_text(a, "font-family"@)
        + ";font-size:"@ + attr_text(a, "font-size"@) + ";line-height:"@ + attr_text(a, "line-height"@)
        + ";text-align:"@ + attr_text(a, "align"@) + ";color:"@ + attr_text(a, "color"@) + ";\">"@
}

pub open spec fn text_close() -> Seq<char> {
    "</div></td></tr>"@
}

pub open spec fn at_least_one(n: nat) -> nat {
    if n == 0 { 1 } else { n }
}

/// The HTML of a body element laid out in `width` pixels, in a row of `row` columns.
pub open spec fn element_html(e: BodyElement, width: nat, row: nat) -> Seq<char>
    decreases e, 1int,
{
    match e {
        BodyElement::Component(c) => match c.kind {
            Kind::Section => section_open(c.attributes@, width) + children_html(
                c.children@,
                width,
                row_size(c.children@),
            ) + section_close(),
            Kind::Column => column_open(c.attributes@, width, at_least_one(row)) + children_html(
                c.children@,
                column_width(c.attributes@, width, at_least_one(row)),
                1,
            ) + column_close(),
            Kind::Text => text_open(c.attributes@) + children_html(c.children@, width, 1) + text_close(),
        },
        BodyElement::Raw(t) => t@,
        BodyElement::Comment(t) => "<!--"@ + t@ + "-->"@,
    }
}

/// The HTML of a sequence of elements, one after the other.
pub open spec fn children_html(cs: Seq<BodyElement>, width: nat, row: nat) -> Seq<char>
    decreases cs, 0int,
{
    if cs.len() == 0 {
        Seq::empty()
    } else {
        children_html(cs.subrange(0, cs.len() - 1), width, row) + element_html(cs[cs.len() - 1], width, row)
    }
}

fn push_attr(out: &mut String, a: &Attributes, name: &str)
    ensures
        final(out)@ == old(out)@ + attr_text(a@, name@),
{
    let key = String::from_str(name);
    match a.get(&key) {
        Some(v) => out.append(v.as_str()),
        None => {
            assert(out@ =~= out@ + Seq::<char>::empty());
        },
    }
}

/// The number of columns among `cs`, at least one.
pub fn count_row(cs: &Vec<BodyElement>) -> (r: usize)
    ensures
        r == row_size(cs@),
{
    let mut n: usize = 0;
    let mut i: usize = 0;
    while i < cs.len()
        invariant
            i <= cs@.len(),
            n == column_count(cs@.subrange(0, i as int)),
            n <= i,
        decreases cs@.len() - i,
    {
        assert(cs@.subrange(0, i + 1).drop_last() =~= cs@.subrange(0, i as int));
        if let BodyElement::Component(c) = &cs[i] {
            if c.kind == Kind::Column {
                n = n + 1;
            }
        }
        i = i + 1;
    }
    assert(cs@.subrange(0, cs@.len() as int) =~= cs@);
    if n == 0 {
        1
    } else {
        n
    }
}

fn render_section(c: &Component, width: u32, out: &mut String)
    requires
        c.kind == Kind::Section,
    ensures
        final(out)@ == old(out)@ + section_open(c.attributes@, width as nat) + children_html(
            c.children@,
            width as nat,
            row_size(c.children@),
        ) + section_close(),
    decreases *c, 2int,
{
    let a = &c.attributes;
    out.append("<div style=\"margin:0px auto;max-width:");
    push_decimal(out, width);
    out.append("px;\"><table align=\"center\" border=\"0\" cellpadding=\"0\" cellspacing=\"0\" role=\"presentation\" style=\"width:100%;\"><tbody><tr><td style=\"direction:");
    push_attr(out, a, "direction");
    out.append(";text-align:");
    push_attr(out, a, "text-align");
    out.append(";\"><!--[if mso | IE]><table role=\"presentation\" border=\"0\" cellpadding=\"0\" cellspacing=\"0\"><tr><![endif]-->");
    assert(out@ =~= old(out)@ + section_open(a@, width as nat));
    let n = count_row(&c.children);
    render_children(c, width, n, out);
    out.append("<!--[if mso | IE]></tr></table><![endif]--></td></tr></tbody></table></div>");
    assert(final(out)@ =~= old(out)@ + section_open(c.attributes@, width as nat) + children_html(
        c.children@,
        width as nat,
        row_size(c.children@),
    ) + section_close());
}

fn column_size_of(a: &Attributes) -> (r: Option<Size>)
    ensures
        r == column_size(a@),
{
    let key = String::from_str("width");
    match a.get(&key) {
        Some(w) => parse_size(w.as_str()),
        None => None,
    }
}

/// The width in pixels of a column of `r` in `width` pixels.
fn column_pixels(a: &Attributes, width: u32, r: usize) -> (w: u32)
    requires
        r >= 1,
    ensures
        w as nat == column_width(a@, width as nat, r as nat),
{
    match column_size_of(a) {
        Some(Size::Pixel(x)) => x,
        Some(Size::Percent(q)) => {
            let wide: u64 = width as u64;
            let pct: u64 = q as u64;
            assert(wide * pct <= u32::MAX as u64 * u32::MAX as u64) by (nonlinear_arith)
                requires
                    wide <= u32::MAX,
                    pct <= u32::MAX,
            ;
            let x: u64 = wide * pct / 100;
            if x > u32::MAX as u64 {
                u32::MAX
            } else {
                x as u32
            }
        },
        None => (width as usize / r) as u32,
    }
}

fn push_column_class(out: &mut String, a: &Attributes, r: usize)
    requires
        r >= 1,
    ensures
        final(out)@ == old(out)@ + column_class(a@, r as nat),
{
    match column_size_of(a) {
        Some(Size::Pixel(x)) => {
            out.append("mj-column-px-");
            push_decimal(out, x);
        },
        Some(Size::Percent(q)) => {
            out.append("mj-column-per-");
            push_decimal(out, q);
        },
        None => {
            out.append("mj-column-per-");
            push_decimal(out, (100 / r) as u32);
        },
    }
    assert(final(out)@ =~= old(out)@ + column_class(a@, r as nat));
}

fn render_column(c: &Component, width: u32, row: usize, out: &mut String)
    requires
        c.kind == Kind::Column,
    ensures
        final(out)@ == old(out)@ + column_open(c.attributes@, width as nat, at_least_one(row as nat))
            + children_html(c.children@, column_width(c.attributes@, width as nat, at_least_one(row as nat)), 1)
            + column_close(),
    decreases *c, 2int,
{
    let a = &c.attributes;
    let r: usize = if row == 0 { 1 } else { row };
    let w = column_pixels(a, width, r);
    out.append("<!--[if mso | IE]><td style=\"vertical-align:");
    push_attr(out, a, "vertical-align");
    out.append(";width:");
    push_decimal(out, w);
    out.append("px;\"><![endif]--><div class=\"");
    push_column_class(out, a, r);
    out.append(" mj-outlook-group-fix\" style=\"font-size:0px;text-align:left;direction:");
    push_attr(out, a, "direction");
    out.append(";display:inline-block;vertical-align:");
    push_attr(out, a, "vertical-align");
    out.append(";width:100%;\"><table border=\"0\" cellpadding=\"0\" cellspacing=\"0\" role=\"presentation\" width=\"100%\"><tbody>");
    assert(out@ =~= old(out)@ + column_open(a@, width as nat, r as nat));
    render_children(c, w, 1, out);
    out.append("</tbody></table></div><!--[if mso | IE]></td><![endif]-->");
    assert(final(out)@ =~= old(out)@ + column_open(c.attributes@, width as nat, at_least_one(row as nat))
        + children_html(c.children@, column_width(c.attributes@, width as nat, at_least_one(row as nat)), 1)
        + column_close());
}

fn render_text(c: &Component, width: u32, out: &mut String)
    requires
        c.kind == Kind::Text,
    ensures
        final(out)@ == old(out)@ + text_open(c.attributes@) + children_html(c.children@, width as nat, 1)
            + text_close(),
    decreases *c, 2int,
{
    let a = &c.attributes;
    out.append("<tr><td align=\"");
    push_attr(out, a, "align");
    out.append("\" style=\"font-size:0px;padding:");
    push_attr(out, a, "padding");
    out.append(";word-break:break-word;\"><div style=\"font-family:");
    push_attr(out, a, "font-family");
    out.append(";font-size:");
    push_attr(out, a, "font-size");
    out.append(";line-height:");
    push_attr(out, a, "line-height");
    out.append(";text-align:");
    push_attr(out, a, "align");
    out.append(";color:");
    push_attr(out, a, "color");
    out.append(";\">");
    assert(out@ =~= old(out)@ + text_open(a@));
    render_children(c, width, 1, out);
    out.append("</div></td></tr>");
    assert(final(out)@ =~= old(out)@ + text_open(c.attributes@) + children_html(c.children@, width as nat, 1)
        + text_close());
}

/// Appends the HTML of an element.
pub fn render_element(e: &BodyElement, width: u32, row: usize, out: &mut String)
    ensures
        final(out)@ == old(out)@ + element_html(*e, width as nat, row as nat),
    decreases *e, 1int,
{
    match e {
        BodyElement::Component(c) => {
            match c.kind {
                Kind::Section => render_section(c, width, out),
                Kind::Column => render_column(c, width, row, out),
                Kind::Text => render_text(c, width, out),
            }
        },
        BodyElement::Raw(t) => {
            out.append(t.as_str());
        },
        BodyElement::Comment(t) => {
            out.append("<!--");
            out.append(t.as_str());
            out.append("-->");
            assert(final(out)@ =~= old(out)@ + element_html(*e, width as nat, row as nat));
        },
    }
}

/// Appends the HTML of the children of a component, one after the other.
pub fn render_children(c: &Component, width: u32, row: usize, out: &mut String)
    ensures
        final(out)@ == old(out)@ + children_html(c.children@, width as nat, row as nat),
    decreases *c, 0int,
{
    let mut i: usize = 0;
    while i < c.children.len()
        invariant
            i <= c.children@.len(),
            out@ == old(out)@ + children_html(c.children@.subrange(0, i as int), width as nat, row as nat),
        decreases c.children@.len() - i,
    {
        let ghost before = out@;
        assert(decreases_to!(*c => c.children@[i as int]));
        render_element(&c.children[i], width, row, out);
        proof {
            let s = c.children@.subrange(0, i + 1);
            assert(s.subrange(0, s.len() - 1) =~= c.children@.subrange(0, i as int));
            assert(s[s.len() - 1] == c.children@[i as int]);
            assert(out@ =~= old(out)@ + children_html(s, width as nat, row as nat));
        }
        i = i + 1;
    }
    assert(c.children@.subrange(0, c.children@.len() as int) =~= c.children@);
}

} // verus!
