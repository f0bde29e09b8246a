//! The property store: a map from keys to values, with list values, and its
//! conversion to and from text.
use vstd::prelude::*;

use crate::text::{
    format_line, is_malformed, join, join_with, line_of, parse_entry, parse_line, split, split_on,
    string_views, ParsedLine,
};

verus! {

/// `ps` lists the properties of `m`: each once, in some order.
pub open spec fn lists(ps: Seq<(Seq<char>, Seq<char>)>, m: Map<Seq<char>, Seq<char>>) -> bool {
    &&& forall|i: int, j: int| 0 <= i < j < ps.len() ==> ps[i].0 != ps[j].0
    &&& forall|i: int|
        0 <= i < ps.len() ==> #[trigger] m.contains_key(ps[i].0) && m[ps[i].0] == ps[i].1
    &&& forall|k: Seq<char>| m.contains_key(k) ==> exists|i: int| 0 <= i < ps.len() && ps[i].0 == k
}

/// The text of `ps`, one line per property.
pub open spec fn render(ps: Seq<(Seq<char>, Seq<char>)>) -> Seq<char>
    decreases ps.len(),
{
    if ps.len() == 0 {
        Seq::empty()
    } else {
        render(ps.drop_last()) + line_of(ps.last().0, ps.last().1)
    }
}

/// `m` after the properties of `lines` are set in order.
pub open spec fn apply_lines(m: Map<Seq<char>, Seq<char>>, lines: Seq<Seq<char>>) -> Map<
    Seq<char>,
    Seq<char>,
>
    decreases lines.len(),
{
    if lines.len() == 0 {
        m
    } else {
        let before = apply_lines(m, lines.drop_last());
        match parse_entry(lines.last()) {
            Some(kv) => before.insert(kv.0, kv.1),
            None => before,
        }
    }
}

/// The numbers, counted from 1, of the lines that have content but no `=`.
pub open spec fn malformed_lines(lines: Seq<Seq<char>>) -> Seq<usize>
    decreases lines.len(),
{
    if lines.len() == 0 {
        Seq::empty()
    } else if is_malformed(lines.last()) {
        malformed_lines(lines.drop_last()).push(lines.len() as usize)
    } else {
        malformed_lines(lines.drop_last())
    }
}

/// The lines of a text: the pieces between newlines.
pub open spec fn text_lines(text: Seq<char>) -> Seq<Seq<char>> {
    split_on(text, '\n')
}

/// Reading and writing a set of string properties.
pub trait Settings {
    /// The properties held, by key.
    spec fn props(&self) -> Map<Seq<char>, Seq<char>>;

    /// The representation is consistent.
    spec fn inv(&self) -> bool;

    /// The value of `key`, if it is set.
    fn property(&self, key: &str) -> (r: Option<String>)
        requires
            self.inv(),
        ensures
            r is None <==> !self.props().contains_key(key@),
            r is Some ==> r->0@ == self.props()[key@],
    ;

    /// The value of `key` cut at each `,`, if it is set.
    fn property_slice(&self, key: &str) -> (r: Option<Vec<String>>)
        requires
            self.inv(),
        ensures
            r is None <==> !self.props().contains_key(key@),
            r is Some ==> string_views(r->0@) == split_on(self.props()[key@], ','),
    ;

    /// Sets `key` to the values joined by `,`.
    fn set_property_slice(&mut self, key: &str, values: Vec<String>)
        requires
            old(self).inv(),
        ensures
            final(self).inv(),
            final(self).props() == old(self).props().insert(
                key@,
                join_with(string_views(values@), seq![',']),
            ),
    ;

    /// Sets `key` to `value`, replacing any earlier value.
    fn set_property(&mut self, key: &str, value: &str)
        requires
            old(self).inv(),
        ensures
            final(self).inv(),
            final(self).props() == old(self).props().insert(key@, value@),
    ;

    /// Sets the property of each `key = value` line of `text`, in order. Blank
    /// and comment lines are skipped; a line with content but no `=` is skipped
    /// too, and its number (from 1) is returned.
    fn load(&mut self, text: &str) -> (malformed: Vec<usize>)
        requires
            old(self).inv(),
        ensures
            final(self).inv(),
            final(self).props() == apply_lines(old(self).props(), text_lines(text@)),
            malformed@ == malformed_lines(text_lines(text@)),
    ;

    /// The text of all properties, one `key = value` line each, in some order.
    fn store(&self) -> (r: String)
        requires
            self.inv(),
        ensures
            exists|ps: Seq<(Seq<char>, Seq<char>)>| lists(ps, self.props()) && r@ == render(ps),
    ;

    /// All keys, each once, in some order.
    fn property_names(&self) -> (r: Vec<String>)
        requires
            self.inv(),
        ensures
            string_views(r@).no_duplicates(),
            forall|k: Seq<char>| self.props().contains_key(k) <==> string_views(r@).contains(k),
    ;
}

/// The property store, kept as a list of pairs with distinct keys.
pub struct Properties {
    entries: Vec<(String, String)>,
    model: Ghost<Map<Seq<char>, Seq<char>>>,
}

impl Properties {
    /// The pairs held, in the order kept.
    pub closed spec fn pairs(&self) -> Seq<(Seq<char>, Seq<char>)> {
        self.entries@.map_values(|e: (String, String)| (e.0@, e.1@))
    }

    /// An empty store.
    pub fn new() -> (r: Properties)
        ensures
            r.inv(),
            r.props() == Map::<Seq<char>, Seq<char>>::empty(),
    {
        Properties { entries: Vec::new(), model: Ghost(Map::empty()) }
    }

    fn find(&self, key: &String) -> (r: Option<usize>)
        requires
            self.inv(),
        ensures
            r is Some ==> r->0 < self.entries@.len() && self.entries@[r->0 as int].0@ == key@,
            r is None ==> !self.props().contains_key(key@),
    {
        let mut i: usize = 0;
        while i < self.entries.len()
            invariant
                self.inv(),
                i <= self.entries@.len(),
                forall|j: int| 0 <= j < i ==> self.entries@[j].0@ != key@,
            decreases self.entries@.len() - i,
        {
            if self.entries[i].0 == *key {
                return Some(i);
            }
            i = i + 1;
        }
        proof {
            if self.props().contains_key(key@) {
                let j = choose|j: int| 0 <= j < self.pairs().len() && self.pairs()[j].0 == key@;
                assert(self.pairs()[j].0 == self.entries@[j].0@);
            }
        }
        None
    }
}

impl Settings for Properties {
    closed spec fn props(&self) -> Map<Seq<char>, Seq<char>> {
        self.model@
    }

    closed spec fn inv(&self) -> bool {
        lists(self.pairs(), self.model@)
    }

    fn property(&self, key: &str) -> (r: Option<String>) {
        match self.find(&key.to_owned()) {
            Some(i) => {
                assert(self.pairs()[i as int].0 == key@);
                assert(self.props().contains_key(self.pairs()[i as int].0));
                Some(self.entries[i].1.clone())
            },
            None => None,
        }
    }

    fn property_slice(&self, key: &str) -> (r: Option<Vec<String>>) {
        proof {
            reveal_strlit(",");
        }
        match self.property(key) {
            Some(value) => Some(split(value.as_str(), ",")),
            None => None,
        }
    }

    fn set_property_slice(&mut self, key: &str, values: Vec<String>) {
        proof {
            reveal_strlit(",");
        }
        assert(","@ =~= seq![',']);
        let value = join(values, ",");
        self.set_property(key, value.as_str());
    }

    fn set_property(&mut self, key: &str, value: &str) {
        let k = key.to_owned();
        let ghost m = self.model@.insert(key@, value@);
        match self.find(&k) {
            Some(i) => {
                self.entries.set(i, (k, value.to_owned()));
                self.model = Ghost(m);
                assert(self.pairs() =~= old(self).pairs().update(i as int, (key@, value@)));
                assert(lists(self.pairs(), m)) by {
                    assert(old(self).pairs()[i as int].0 == key@);
                    assert forall|j: int| 0 <= j < self.pairs().len() implies #[trigger] m.contains_key(
                        self.pairs()[j].0,
                    ) && m[self.pairs()[j].0] == self.pairs()[j].1 by {
                        if j != i {
                            assert(old(self).props().contains_key(old(self).pairs()[j].0));
                        }
                    }
                    assert forall|x: Seq<char>| m.contains_key(x) implies exists|j: int|
                        0 <= j < self.pairs().len() && self.pairs()[j].0 == x by {
                        if x == key@ {
                            assert(self.pairs()[i as int].0 == x);
                        } else {
                            assert(old(self).props().contains_key(x));
                            let j = choose|j: int|
                                0 <= j < old(self).pairs().len() && old(self).pairs()[j].0 == x;
                            assert(self.pairs()[j].0 == x);
                        }
                    }
                }
            },
            None => {
                self.entries.push((k, value.to_owned()));
                self.model = Ghost(m);
                assert(self.pairs() =~= old(self).pairs().push((key@, value@)));
                assert(lists(self.pairs(), m)) by {
                    let n = old(self).pairs().len() as int;
                    assert(self.pairs()[n].0 == key@);
                    assert forall|x: Seq<char>| m.contains_key(x) implies exists|j: int|
                        0 <= j < self.pairs().len() && self.pairs()[j].0 == x by {
                        if x == key@ {
                            assert(self.pairs()[n].0 == x);
                        } else {
                            assert(old(self).props().contains_key(x));
                            let j = choose|j: int|
                                0 <= j < old(self).pairs().len() && old(self).pairs()[j].0 == x;
                            assert(self.pairs()[j].0 == x);
                        }
                    }
                }
            },
        }
    }

    fn load(&mut self, text: &str) -> (malformed: Vec<usize>) {
        proof {
            reveal_strlit("\n");
        }
        let lines = split(text, "\n");
        let ghost all = string_views(lines@);
        let mut malformed: Vec<usize> = Vec::new();
        let mut i: usize = 0;
        while i < lines.len()
            invariant
                self.inv(),
                all == string_views(lines@),
                all == text_lines(text@),
                i <= lines@.len(),
                self.props() == apply_lines(old(self).props(), all.take(i as int)),
                malformed@ == malformed_lines(all.take(i as int)),
            decreases lines@.len() - i,
        {
            assert(all.take(i + 1).drop_last() =~= all.take(i as int));
            assert(all.take(i + 1).last() == lines@[i as int]@);
            match parse_line(lines[i].as_str()) {
                ParsedLine::Entry(k, v) => {
                    self.set_property(k.as_str(), v.as_str());
                },
                ParsedLine::Malformed => {
                    malformed.push(i + 1);
                },
                ParsedLine::Ignored => {},
            }
            i = i + 1;
        }
        assert(all.take(i as int) =~= all);
        malformed
    }

    fn store(&self) -> (r: String) {
        let mut lines: Vec<String> = Vec::new();
        let mut i: usize = 0;
        while i < self.entries.len()
            invariant
                i <= self.entries@.len(),
                lines@.len() == i,
                forall|j: int|
                    0 <= j < i ==> #[trigger] lines@[j]@ == line_of(
                        self.pairs()[j].0,
                        self.pairs()[j].1,
                    ),
            decreases self.entries@.len() - i,
        {
            let line = format_line(self.entries[i].0.as_str(), self.entries[i].1.as_str());
            lines.push(line);
            i = i + 1;
        }
        proof {
            reveal_strlit("");
        }
        let ghost views = string_views(lines@);
        let r = join(lines, "");
        proof {
            assert forall|j: int| 0 <= j < views.len() implies views[j] == line_of(
                self.pairs()[j].0,
                self.pairs()[j].1,
            ) by {
                assert(views[j] == lines@[j]@);
            }
            assert(""@ =~= Seq::<char>::empty());
            lemma_join_lines(views, self.pairs());
            assert(lists(self.pairs(), self.props()) && r@ == render(self.pairs()));
        }
        r
    }

    fn property_names(&self) -> (r: Vec<String>) {
        let mut names: Vec<String> = Vec::new();
        let mut i: usize = 0;
        while i < self.entries.len()
            invariant
                self.inv(),
                i <= self.entries@.len(),
                names@.len() == i,
                forall|j: int| 0 <= j < i ==> #[trigger] names@[j]@ == self.pairs()[j].0,
            decreases self.entries@.len() - i,
        {
            names.push(self.entries[i].0.clone());
            i = i + 1;
        }
        proof {
            let v = string_views(names@);
            assert forall|a: int, b: int| 0 <= a < v.len() && 0 <= b < v.len() && a != b implies v[a]
                != v[b] by {
                assert(v[a] == self.pairs()[a].0);
                assert(v[b] == self.pairs()[b].0);
            }
            assert forall|k: Seq<char>| self.props().contains_key(k) <==> v.contains(k) by {
                if self.props().contains_key(k) {
                    let j = choose|j: int| 0 <= j < self.pairs().len() && self.pairs()[j].0 == k;
                    assert(v[j] == k);
                }
                if v.contains(k) {
                    let j = choose|j: int| 0 <= j < v.len() && v[j] == k;
                    assert(self.pairs()[j].0 == k);
                }
            }
        }
        names
    }
}

/// Makes a store; `file_type_properties` selects the `key = value` text form,
/// the only one there is.
pub struct SettingsBuilder {
    properties: bool,
}

/// A builder for an empty store.
pub fn builder() -> (r: SettingsBuilder)
    ensures
        !r.selects_properties(),
{
    SettingsBuilder { properties: false }
}

impl SettingsBuilder {
    /// Whether the `key = value` text form was selected.
    pub closed spec fn selects_properties(&self) -> bool {
        self.properties
    }

    /// Selects the `key = value` text form.
    pub fn file_type_properties(&mut self) -> (r: Self)
        ensures
            r.selects_properties(),
    {
        Self { properties: true }
    }

    /// An empty store.
    pub fn build(self) -> (r: impl Settings)
        ensures
            r.inv(),
            r.props() == Map::<Seq<char>, Seq<char>>::empty(),
    {
        Properties::new()
    }
}

/// Joining the lines of `ps` with nothing between them gives the text of `ps`.
proof fn lemma_join_lines(xs: Seq<Seq<char>>, ps: Seq<(Seq<char>, Seq<char>)>)
    requires
        xs.len() == ps.len(),
        forall|j: int| 0 <= j < xs.len() ==> xs[j] == line_of(ps[j].0, ps[j].1),
    ensures
        join_with(xs, Seq::empty()) == render(ps),
    decreases xs.len(),
{
    if xs.len() == 1 {
        assert(ps.drop_last() =~= Seq::empty());
        assert(render(ps.drop_last()) =~= Seq::empty());
        assert(render(ps) =~= line_of(ps[0].0, ps[0].1));
    } else if xs.len() > 1 {
        lemma_join_lines(xs.drop_last(), ps.drop_last());
        assert(join_with(xs, Seq::empty()) =~= join_with(xs.drop_last(), Seq::empty()) + xs.last());
    }
}

} // verus!
