use vstd::prelude::*;

verus! {

/// The map that a sequence of `(name, value)` entries denotes: a later entry
/// for a name overrides an earlier one.
pub open spec fn entries_map(s: Seq<(String, String)>) -> Map<Seq<char>, Seq<char>>
    decreases s.len(),
{
    if s.len() == 0 {
        Map::empty()
    } else {
        entries_map(s.drop_last()).insert(s.last().0@, s.last().1@)
    }
}

/// The attribute set that results from applying the four layers in
/// ascending precedence: kind defaults, per-tag overrides of the context,
/// attributes pushed down by the parent, attributes declared on the tag.
pub open spec fn cascade(
    defaults: Map<Seq<char>, Seq<char>>,
    context: Map<Seq<char>, Seq<char>>,
    extra: Map<Seq<char>, Seq<char>>,
    local: Map<Seq<char>, Seq<char>>,
) -> Map<Seq<char>, Seq<char>> {
    defaults.union_prefer_right(context).union_prefer_right(extra).union_prefer_right(local)
}

/// An ordered mapping from attribute name to value.
pub struct Attributes {
    pub entries: Vec<(String, String)>,
}

impl View for Attributes {
    type V = Map<Seq<char>, Seq<char>>;

    open spec fn view(&self) -> Map<Seq<char>, Seq<char>> {
        entries_map(self.entries@)
    }
}

proof fn lemma_entries_map_push(s: Seq<(String, String)>, e: (String, String))
    ensures
        entries_map(s.push(e)) == entries_map(s).insert(e.0@, e.1@),
{
    assert(s.push(e).drop_last() =~= s);
}

impl Attributes {
    pub fn new() -> (r: Attributes)
        ensures
            r@ == Map::<Seq<char>, Seq<char>>::empty(),
    {
        Attributes { entries: Vec::new() }
    }

    pub fn len(&self) -> (r: usize)
        ensures
            r == self.entries@.len(),
    {
        self.entries.len()
    }

    /// The value recorded for `name`, if any.
    pub fn get(&self, name: &String) -> (r: Option<&String>)
        ensures
            r is Some <==> self@.contains_key(name@),
            r is Some ==> r->0@ == self@[name@],
    {
        let mut i: usize = self.entries.len();
        assert(self.entries@.subrange(0, i as int) =~= self.entries@);
        while i > 0
            invariant
                i <= self.entries@.len(),
                self@.contains_key(name@) == entries_map(self.entries@.subrange(0, i as int)).contains_key(name@),
                self@.contains_key(name@) ==> self@[name@] == entries_map(self.entries@.subrange(0, i as int))[name@],
            decreases i,
        {
            let e = &self.entries[i - 1];
            proof {
                let s = self.entries@.subrange(0, i as int);
                assert(s.drop_last() =~= self.entries@.subrange(0, i - 1));
            }
            if e.0 == *name {
                return Some(&e.1);
            }
            i = i - 1;
        }
        proof {
            assert(self.entries@.subrange(0, 0) =~= Seq::<(String, String)>::empty());
        }
        None
    }

    /// Records `value` for `name`; an earlier value for that name is replaced.
    pub fn set(&mut self, name: String, value: String)
        ensures
            final(self)@ == old(self)@.insert(name@, value@),
    {
        let mut kept: Vec<(String, String)> = Vec::new();
        let mut i: usize = 0;
        while i < self.entries.len()
            invariant
                i <= self.entries@.len(),
                entries_map(kept@) == entries_map(self.entries@.subrange(0, i as int)).remove(name@),
            decreases self.entries@.len() - i,
        {
            let e = &self.entries[i];
            proof {
                assert(self.entries@.subrange(0, i + 1) =~= self.entries@.subrange(0, i as int).push(*e));
                lemma_entries_map_push(self.entries@.subrange(0, i as int), *e);
            }
            if !(e.0 == name) {
                let k = e.0.clone();
                let v = e.1.clone();
                proof {
                    lemma_entries_map_push(kept@, (k, v));
                }
                kept.push((k, v));
                assert(entries_map(kept@) =~= entries_map(self.entries@.subrange(0, i + 1)).remove(name@));
            } else {
                assert(entries_map(kept@) =~= entries_map(self.entries@.subrange(0, i + 1)).remove(name@));
            }
            i = i + 1;
        }
        assert(self.entries@.subrange(0, self.entries@.len() as int) =~= self.entries@);
        proof {
            lemma_entries_map_push(kept@, (name, value));
        }
        kept.push((name, value));
        assert(entries_map(kept@) =~= old(self)@.insert(name@, value@));
        self.entries = kept;
    }

    /// Overwrites and extends with the entries of `other`, which take
    /// precedence over existing ones.
    pub fn merge(&mut self, other: &Attributes)
        ensures
            final(self)@ == old(self)@.union_prefer_right(other@),
    {
        let mut i: usize = 0;
        while i < other.entries.len()
            invariant
                i <= other.entries@.len(),
                self@ == old(self)@.union_prefer_right(entries_map(other.entries@.subrange(0, i as int))),
            decreases other.entries@.len() - i,
        {
            let e = &other.entries[i];
            proof {
                assert(other.entries@.subrange(0, i + 1) =~= other.entries@.subrange(0, i as int).push(*e));
                lemma_entries_map_push(other.entries@.subrange(0, i as int), *e);
            }
            self.set(e.0.clone(), e.1.clone());
            assert(self@ =~= old(self)@.union_prefer_right(entries_map(other.entries@.subrange(0, i + 1))));
            i = i + 1;
        }
        assert(other.entries@.subrange(0, other.entries@.len() as int) =~= other.entries@);
    }
}

/// Resolves the final attribute set of an element from its four layers.
pub fn resolve(
    defaults: &Attributes,
    context: Option<&Attributes>,
    extra: Option<&Attributes>,
    local: &Attributes,
) -> (r: Attributes)
    ensures
        r@ == cascade(
            defaults@,
            match context { Some(c) => c@, None => Map::empty() },
            match extra { Some(e) => e@, None => Map::empty() },
            local@,
        ),
{
    let mut r = Attributes::new();
    r.merge(defaults);
    assert(r@ =~= defaults@);
    match context {
        Some(c) => r.merge(c),
        None => {
            assert(r@ =~= r@.union_prefer_right(Map::empty()));
        },
    }
    match extra {
        Some(e) => r.merge(e),
        None => {
            assert(r@ =~= r@.union_prefer_right(Map::empty()));
        },
    }
    r.merge(local);
    r
}

/// For one attribute name, the resolved value is the local declaration when
/// present, else the inherited value, else the context override, else the
/// kind default, else absent.
pub proof fn cascade_precedence(
    d: Map<Seq<char>, Seq<char>>,
    c: Map<Seq<char>, Seq<char>>,
    e: Map<Seq<char>, Seq<char>>,
    l: Map<Seq<char>, Seq<char>>,
    name: Seq<char>,
)
    ensures
        cascade(d, c, e, l).contains_key(name) <==> (l.contains_key(name) || e.contains_key(name)
            || c.contains_key(name) || d.contains_key(name)),
        l.contains_key(name) ==> cascade(d, c, e, l)[name] == l[name],
        !l.contains_key(name) && e.contains_key(name) ==> cascade(d, c, e, l)[name] == e[name],
        !l.contains_key(name) && !e.contains_key(name) && c.contains_key(name) ==> cascade(d, c, e, l)[name]
            == c[name],
        !l.contains_key(name) && !e.contains_key(name) && !c.contains_key(name) && d.contains_key(name)
            ==> cascade(d, c, e, l)[name] == d[name],
{
}

} // verus!
