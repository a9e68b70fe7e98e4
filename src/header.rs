use vstd::prelude::*;
use crate::attributes::Attributes;
use crate::size::Size;

verus! {

/// The usual web fonts and the address of their style sheet.
pub open spec fn web_fonts() -> Map<Seq<char>, Seq<char>> {
    map![
        "Open Sans"@ => "https://fonts.googleapis.com/css?family=Open+Sans:300,400,500,700"@,
        "Droid Sans"@ => "https://fonts.googleapis.com/css?family=Droid+Sans:300,400,500,700"@,
        "Lato"@ => "https://fonts.googleapis.com/css?family=Lato:300,400,500,700"@,
        "Roboto"@ => "https://fonts.googleapis.com/css?family=Roboto:300,400,500,700"@,
        "Ubuntu"@ => "https://fonts.googleapis.com/css?family=Ubuntu:300,400,500,700"@,
    ]
}

/// Font families and the address of their style sheet.
pub struct FontRegistry {
    pub fonts: Attributes,
}

impl FontRegistry {
    pub fn new() -> (r: FontRegistry)
        ensures
            r.fonts@ == Map::<Seq<char>, Seq<char>>::empty(),
    {
        FontRegistry { fonts: Attributes::new() }
    }

    /// Registers (or replaces) the address of a family.
    pub fn add(&mut self, name: String, href: String)
        ensures
            final(self).fonts@ == old(self).fonts@.insert(name@, href@),
    {
        self.fonts.set(name, href);
    }

    /// The registry with the usual web fonts.
    pub fn with_web_fonts() -> (r: FontRegistry)
        ensures
            r.fonts@ == web_fonts(),
    {
        let mut r = FontRegistry::new();
        r.add(String::from_str("Open Sans"), String::from_str("https://fonts.googleapis.com/css?family=Open+Sans:300,400,500,700"));
        r.add(String::from_str("Droid Sans"), String::from_str("https://fonts.googleapis.com/css?family=Droid+Sans:300,400,500,700"));
        r.add(String::from_str("Lato"), String::from_str("https://fonts.googleapis.com/css?family=Lato:300,400,500,700"));
        r.add(String::from_str("Roboto"), String::from_str("https://fonts.googleapis.com/css?family=Roboto:300,400,500,700"));
        r.add(String::from_str("Ubuntu"), String::from_str("https://fonts.googleapis.com/css?family=Ubuntu:300,400,500,700"));
        assert(r.fonts@ =~= web_fonts());
        r
    }
}

/// The per-tag default attributes that a list of registrations gives: each
/// registration for `tag` overrides the earlier ones.
pub open spec fn defaults_for(s: Seq<(Seq<char>, Map<Seq<char>, Seq<char>>)>, tag: Seq<char>) -> Map<
    Seq<char>,
    Seq<char>,
>
    decreases s.len(),
{
    if s.len() == 0 {
        Map::empty()
    } else if s.last().0 == tag {
        defaults_for(s.drop_last(), tag).union_prefer_right(s.last().1)
    } else {
        defaults_for(s.drop_last(), tag)
    }
}

/// The rendering context of a document.
pub struct Header {
    /// The width that separates mobile from desktop layout.
    pub breakpoint: Size,
    pub fonts: FontRegistry,
    /// Default attributes registered per tag, in order of registration.
    pub defaults: Vec<(String, Attributes)>,
    pub title: String,
    pub preview: String,
    pub keep_comments: bool,
}

/// The mathematical value of a rendering context.
pub struct HeaderView {
    pub breakpoint: Size,
    pub fonts: Map<Seq<char>, Seq<char>>,
    pub defaults: Seq<(Seq<char>, Map<Seq<char>, Seq<char>>)>,
    pub title: Seq<char>,
    pub preview: Seq<char>,
    pub keep_comments: bool,
}

impl View for Header {
    type V = HeaderView;

    open spec fn view(&self) -> HeaderView {
        HeaderView {
            breakpoint: self.breakpoint,
            fonts: self.fonts.fonts@,
            defaults: self.defaults@.map_values(|e: (String, Attributes)| (e.0@, e.1@)),
            title: self.title@,
            preview: self.preview@,
            keep_comments: self.keep_comments,
        }
    }
}

impl Header {
    /// A context with no registered defaults and no title or preview.
    pub fn new(breakpoint: Size, fonts: FontRegistry, keep_comments: bool) -> (r: Header)
        ensures
            r@ == (HeaderView {
                breakpoint,
                fonts: fonts.fonts@,
                defaults: Seq::empty(),
                title: Seq::empty(),
                preview: Seq::empty(),
                keep_comments,
            }),
    {
        let r = Header {
            breakpoint,
            fonts,
            defaults: Vec::new(),
            title: String::new(),
            preview: String::new(),
            keep_comments,
        };
        assert(r@.defaults =~= Seq::empty());
        r
    }

    /// Registers default attributes for a tag.
    pub fn add_defaults(&mut self, tag: String, attributes: Attributes)
        ensures
            final(self)@ == (HeaderView { defaults: old(self)@.defaults.push((tag@, attributes@)), ..old(self)@ }),
    {
        let ghost t = tag@;
        let ghost a = attributes@;
        self.defaults.push((tag, attributes));
        assert(self@.defaults =~= old(self)@.defaults.push((t, a)));
    }

    /// The default attributes registered for `tag`.
    pub fn defaults_for(&self, tag: &String) -> (r: Attributes)
        ensures
            r@ == defaults_for(self@.defaults, tag@),
    {
        let mut r = Attributes::new();
        let mut i: usize = 0;
        while i < self.defaults.len()
            invariant
                i <= self.defaults@.len(),
                r@ == defaults_for(self@.defaults.subrange(0, i as int), tag@),
            decreases self.defaults@.len() - i,
        {
            let e = &self.defaults[i];
            assert(self@.defaults.subrange(0, i + 1).drop_last() =~= self@.defaults.subrange(0, i as int));
            if e.0 == *tag {
                r.merge(&e.1);
            }
            i = i + 1;
        }
        assert(self@.defaults.subrange(0, self.defaults@.len() as int) =~= self@.defaults);
        r
    }
}

} // verus!
