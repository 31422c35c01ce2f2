//! JSON values.

use vstd::prelude::*;
use crate::order::{
    ascending, in_order, lemma_before_irreflexive, lemma_before_transitive, lemma_in_order, lists,
    name_before, standing, Standing,
};
use crate::text::texts;
use crate::outside::{
    held_as_float, is_float, json_held, json_read, json_text, members_held, names_differ,
    put_together, read_value, reads_back, same_number, take_apart, write_value, JsonLevel,
    NESTING_LIMIT,
};

verus! {

/// What a JSON value says, whatever holds it.
pub enum JsonTree {
    Null,
    Bool(bool),
    Number(serde_json::Number),
    Text(Seq<char>),
    Array(Seq<JsonTree>),
    Object(Map<Seq<char>, JsonTree>),
}

/// A JSON value. Numbers are carried as `serde_json` holds them; nothing here
/// looks inside one, but to tell floating-point numbers from integers.
#[derive(Debug, PartialEq, Eq)]
pub enum Json {
    Null,
    Bool(bool),
    Number(serde_json::Number),
    Text(String),
    Array(Vec<Json>),
    Object(JsonMap),
}

/// The members of a JSON object, in ascending order of their names.
#[derive(Debug, PartialEq, Eq)]
pub struct JsonMap {
    entries: Vec<(String, Json)>,
}

/// What the value `j` says.
pub open spec fn tree(j: Json) -> JsonTree
    decreases j,
{
    match j {
        Json::Null => JsonTree::Null,
        Json::Bool(b) => JsonTree::Bool(b),
        Json::Number(n) => JsonTree::Number(n),
        Json::Text(s) => JsonTree::Text(s@),
        Json::Array(items) => JsonTree::Array(trees(items@)),
        Json::Object(members) => JsonTree::Object(member_trees(members)),
    }
}

/// What the values `items` say, one by one.
pub open spec fn trees(items: Seq<Json>) -> Seq<JsonTree>
    decreases items,
{
    Seq::new(
        items.len(),
        |i: int|
            if 0 <= i < items.len() {
                tree(items[i])
            } else {
                JsonTree::Null
            },
    )
}

/// What the members of an object say, by name.
pub closed spec fn member_trees(m: JsonMap) -> Map<Seq<char>, JsonTree>
    decreases m,
{
    entry_trees(m.entries@)
}

spec fn entry_trees(entries: Seq<(String, Json)>) -> Map<Seq<char>, JsonTree>
    decreases entries,
{
    if entries.len() == 0 {
        Map::empty()
    } else {
        entry_trees(entries.subrange(0, entries.len() - 1)).insert(
            entries[entries.len() - 1].0@,
            tree(entries[entries.len() - 1].1),
        )
    }
}

spec fn names(entries: Seq<(String, Json)>) -> Seq<Seq<char>> {
    Seq::new(entries.len(), |i: int| entries[i].0@)
}

impl View for Json {
    type V = JsonTree;

    open spec fn view(&self) -> JsonTree {
        tree(*self)
    }
}

impl View for JsonMap {
    type V = Map<Seq<char>, JsonTree>;

    open spec fn view(&self) -> Map<Seq<char>, JsonTree> {
        member_trees(*self)
    }
}

/// The member `name` of an object, if `t` is an object that has one.
pub open spec fn member(t: JsonTree, name: Seq<char>) -> Option<JsonTree> {
    match t {
        JsonTree::Object(m) => if m.dom().contains(name) {
            Some(m[name])
        } else {
            None
        },
        _ => None,
    }
}

/// The text that `t` is, if it is one.
pub open spec fn as_text(t: JsonTree) -> Option<Seq<char>> {
    match t {
        JsonTree::Text(s) => Some(s),
        _ => None,
    }
}

/// The member `name` of an object, if it is there and is a text.
pub open spec fn text_member(t: JsonTree, name: Seq<char>) -> Option<Seq<char>> {
    match member(t, name) {
        Some(v) => as_text(v),
        None => None,
    }
}

/// The texts among `items`, in their order.
pub open spec fn text_items(items: Seq<JsonTree>) -> Seq<Seq<char>>
    decreases items.len(),
{
    if items.len() == 0 {
        seq![]
    } else {
        match as_text(items.last()) {
            Some(s) => text_items(items.drop_last()).push(s),
            None => text_items(items.drop_last()),
        }
    }
}

/// The texts in the member `name`; none where it is missing or no array.
pub open spec fn text_list(doc: JsonTree, name: Seq<char>) -> Seq<Seq<char>> {
    match member(doc, name) {
        Some(JsonTree::Array(items)) => text_items(items),
        _ => seq![],
    }
}

/// The JSON of a list of texts.
pub open spec fn text_trees(list: Seq<Seq<char>>) -> Seq<JsonTree> {
    Seq::new(list.len(), |i: int| JsonTree::Text(list[i]))
}

proof fn lemma_entries(entries: Seq<(String, Json)>)
    requires
        ascending(names(entries)),
    ensures
        forall|i: int|
            0 <= i < entries.len() ==> {
                &&& entry_trees(entries).dom().contains(#[trigger] entries[i].0@)
                &&& entry_trees(entries)[entries[i].0@] == tree(entries[i].1)
            },
        forall|k: Seq<char>|
            #[trigger] entry_trees(entries).dom().contains(k) ==> names(entries).contains(k),
    decreases entries.len(),
{
    if entries.len() > 0 {
        let less = entries.subrange(0, entries.len() - 1);
        let last = entries[entries.len() - 1];
        assert forall|i: int, j: int| 0 <= i < j < names(less).len() implies #[trigger] name_before(
            names(less)[i],
            names(less)[j],
        ) by {
            assert(name_before(names(entries)[i], names(entries)[j]));
        }
        lemma_entries(less);
        assert forall|i: int| 0 <= i < entries.len() implies {
            &&& entry_trees(entries).dom().contains(#[trigger] entries[i].0@)
            &&& entry_trees(entries)[entries[i].0@] == tree(entries[i].1)
        } by {
            if i < entries.len() - 1 {
                assert(less[i] == entries[i]);
                assert(name_before(names(entries)[i], names(entries)[entries.len() - 1]));
                lemma_before_irreflexive(last.0@);
            }
        }
        assert forall|k: Seq<char>| #[trigger]
            entry_trees(entries).dom().contains(k) implies names(entries).contains(k) by {
            if k == last.0@ {
                assert(names(entries)[entries.len() - 1] == k);
            } else {
                assert(entry_trees(less).dom().contains(k));
                let i = choose|i: int| 0 <= i < names(less).len() && names(less)[i] == k;
                assert(names(entries)[i] == k);
            }
        }
    }
}

proof fn lemma_listed(entries: Seq<(String, Json)>)
    requires
        ascending(names(entries)),
    ensures
        in_order(entry_trees(entries).dom()) == names(entries),
        lists(names(entries), entry_trees(entries).dom()),
{
    lemma_entries(entries);
    assert forall|k: Seq<char>| #[trigger]
        entry_trees(entries).dom().contains(k) <==> names(entries).contains(k) by {
        if names(entries).contains(k) {
            let i = choose|i: int| 0 <= i < names(entries).len() && names(entries)[i] == k;
            assert(entry_trees(entries).dom().contains(entries[i].0@));
        }
    }
    assert(lists(names(entries), entry_trees(entries).dom()));
    lemma_in_order(names(entries), entry_trees(entries).dom());
}

impl JsonMap {
    #[verifier::type_invariant]
    spec fn ordered(self) -> bool {
        ascending(names(self.entries@))
    }

    /// An object without members.
    pub fn new() -> (m: JsonMap)
        ensures
            m@ == Map::<Seq<char>, JsonTree>::empty(),
    {
        JsonMap { entries: Vec::new() }
    }

    /// Where `name` is, or where it would have to stand.
    fn locate(&self, name: &str) -> (r: (bool, usize))
        ensures
            r.1 <= self.entries@.len(),
            r.0 ==> r.1 < self.entries@.len() && self.entries@[r.1 as int].0@ == name@,
            !r.0 ==> !self@.dom().contains(name@),
            forall|i: int|
                0 <= i < r.1 ==> name_before(#[trigger] names(self.entries@)[i], name@),
            forall|i: int|
                r.1 <= i < self.entries@.len() && !r.0 ==> name_before(
                    name@,
                    #[trigger] names(self.entries@)[i],
                ),
    {
        proof {
            use_type_invariant(self);
            lemma_entries(self.entries@);
        }
        let ghost listed = names(self.entries@);
        let mut i: usize = 0;
        while i < self.entries.len()
            invariant
                listed == names(self.entries@),
                ascending(listed),
                i <= self.entries@.len(),
                forall|j: int| 0 <= j < i ==> name_before(#[trigger] listed[j], name@),
                forall|k: Seq<char>|
                    #[trigger] self@.dom().contains(k) ==> listed.contains(k),
            decreases self.entries@.len() - i,
        {
            match standing(self.entries[i].0.as_str(), name) {
                Standing::Before => {},
                Standing::Same => {
                    return (true, i);
                },
                Standing::After => {
                    proof {
                        assert(listed[i as int] == self.entries@[i as int].0@);
                        assert forall|j: int| i <= j < listed.len() implies name_before(
                            name@,
                            #[trigger] listed[j],
                        ) by {
                            if i < j {
                                assert(name_before(listed[i as int], listed[j]));
                                lemma_before_transitive(name@, listed[i as int], listed[j]);
                            }
                        }
                        lemma_before_irreflexive(name@);
                        assert(!listed.contains(name@));
                    }
                    return (false, i);
                },
            }
            i = i + 1;
        }
        proof {
            lemma_before_irreflexive(name@);
            assert(!listed.contains(name@));
        }
        (false, i)
    }

    /// The member `name`.
    pub fn get(&self, name: &str) -> (r: Option<&Json>)
        ensures
            match r {
                Some(j) => self@.dom().contains(name@) && self@[name@] == j@,
                None => !self@.dom().contains(name@),
            },
    {
        proof {
            use_type_invariant(self);
            lemma_entries(self.entries@);
        }
        let (found, at) = self.locate(name);
        if found {
            Some(&self.entries[at].1)
        } else {
            None
        }
    }

    /// Sets the member `name`, in place of an earlier one.
    pub fn insert(&mut self, name: String, value: Json)
        ensures
            final(self)@ == old(self)@.insert(name@, value@),
    {
        proof {
            use_type_invariant(&*self);
            lemma_entries(self.entries@);
        }
        let ghost before = self.entries@;
        let ghost listed = names(before);
        let (found, at) = self.locate(name.as_str());
        let ghost text = name@;
        let ghost said = value@;
        let mut entries: Vec<(String, Json)> = Vec::new();
        std::mem::swap(&mut entries, &mut self.entries);
        if found {
            entries.set(at, (name, value));
            assert(names(entries@) =~= listed);
        } else {
            entries.insert(at, (name, value));
            assert(names(entries@) =~= listed.insert(at as int, text));
            assert forall|i: int, j: int|
                0 <= i < j < entries@.len() implies #[trigger] name_before(
                names(entries@)[i],
                names(entries@)[j],
            ) by {
                if i < at && at < j {
                    assert(name_before(listed[i], listed[j - 1]));
                } else if at < i {
                    assert(name_before(listed[i - 1], listed[j - 1]));
                } else if j < at {
                    assert(name_before(listed[i], listed[j]));
                } else if i == at {
                    assert(name_before(text, listed[j - 1]));
                } else {
                    assert(name_before(listed[i], text));
                }
            }
        }
        proof {
            lemma_entries(entries@);
            let after = entry_trees(entries@);
            let want = entry_trees(before).insert(text, said);
            assert forall|k: Seq<char>| #[trigger] after.dom().contains(k) <==> want.dom().contains(k) by {
                if after.dom().contains(k) {
                    let i = choose|i: int| 0 <= i < names(entries@).len() && names(entries@)[i] == k;
                    if i != at {
                        let o = if found || i < at { i } else { i - 1 };
                        assert(entries@[i] == before[o]);
                        assert(entry_trees(before).dom().contains(before[o].0@));
                    }
                }
                if want.dom().contains(k) {
                    if k == text {
                        assert(after.dom().contains(entries@[at as int].0@));
                    } else {
                        let o = choose|o: int| 0 <= o < listed.len() && listed[o] == k;
                        let i = if found || o < at { o } else { o + 1 };
                        assert(entries@[i] == before[o]);
                        assert(after.dom().contains(entries@[i].0@));
                    }
                }
            }
            assert forall|k: Seq<char>| #[trigger] want.dom().contains(k) implies after[k] == want[k] by {
                if k == text {
                    assert(after[entries@[at as int].0@] == said);
                } else {
                    let o = choose|o: int| 0 <= o < listed.len() && listed[o] == k;
                    let i = if found || o < at { o } else { o + 1 };
                    assert(entries@[i] == before[o]);
                    assert(after[entries@[i].0@] == tree(before[o].1));
                    assert(entry_trees(before)[before[o].0@] == tree(before[o].1));
                }
            }
            assert(after =~= want);
        }
        self.entries = entries;
    }

    /// Takes the member `name` out.
    pub fn remove(&mut self, name: &str) -> (r: Option<Json>)
        ensures
            final(self)@ == old(self)@.remove(name@),
            match r {
                Some(j) => old(self)@.dom().contains(name@) && old(self)@[name@] == j@,
                None => !old(self)@.dom().contains(name@),
            },
    {
        proof {
            use_type_invariant(&*self);
            lemma_entries(self.entries@);
        }
        let ghost before = self.entries@;
        let ghost listed = names(before);
        let (found, at) = self.locate(name);
        if !found {
            assert(self@.remove(name@) =~= self@);
            return None;
        }
        let mut entries: Vec<(String, Json)> = Vec::new();
        std::mem::swap(&mut entries, &mut self.entries);
        let gone = entries.remove(at);
        proof {
            assert forall|i: int, j: int|
                0 <= i < j < entries@.len() implies #[trigger] name_before(
                names(entries@)[i],
                names(entries@)[j],
            ) by {
                let p = if i < at { i } else { i + 1 };
                let q = if j < at { j } else { j + 1 };
                assert(entries@[i] == before[p]);
                assert(entries@[j] == before[q]);
                assert(name_before(listed[p], listed[q]));
            }
            lemma_entries(entries@);
            let after = entry_trees(entries@);
            let want = entry_trees(before).remove(name@);
            assert forall|k: Seq<char>| #[trigger] after.dom().contains(k) <==> want.dom().contains(k) by {
                if after.dom().contains(k) {
                    let i = choose|i: int| 0 <= i < names(entries@).len() && names(entries@)[i] == k;
                    let o = if i < at { i } else { i + 1 };
                    assert(entries@[i] == before[o]);
                    assert(entry_trees(before).dom().contains(before[o].0@));
                    if o < at {
                        assert(name_before(listed[o], listed[at as int]));
                    } else {
                        assert(name_before(listed[at as int], listed[o]));
                    }
                    lemma_before_irreflexive(k);
                }
                if want.dom().contains(k) {
                    let o = choose|o: int| 0 <= o < listed.len() && listed[o] == k;
                    let i = if o < at { o } else { o - 1 };
                    assert(entries@[i] == before[o]);
                    assert(after.dom().contains(entries@[i].0@));
                }
            }
            assert forall|k: Seq<char>| #[trigger] want.dom().contains(k) implies after[k] == want[k] by {
                let o = choose|o: int| 0 <= o < listed.len() && listed[o] == k;
                let i = if o < at { o } else { o - 1 };
                assert(entries@[i] == before[o]);
                assert(after[entries@[i].0@] == tree(before[o].1));
                assert(entry_trees(before)[before[o].0@] == tree(before[o].1));
            }
            assert(after =~= want);
        }
        self.entries = entries;
        Some(gone.1)
    }

    /// How many members there are.
    pub fn len(&self) -> (n: usize)
        ensures
            n == in_order(self@.dom()).len(),
            lists(in_order(self@.dom()), self@.dom()),
    {
        proof {
            use_type_invariant(self);
            lemma_listed(self.entries@);
        }
        self.entries.len()
    }

    /// Whether there are no members.
    pub fn is_empty(&self) -> (r: bool)
        ensures
            r == (self@ == Map::<Seq<char>, JsonTree>::empty()),
    {
        proof {
            use_type_invariant(self);
            lemma_entries(self.entries@);
        }
        if self.entries.len() == 0 {
            assert(self@ =~= Map::<Seq<char>, JsonTree>::empty());
            true
        } else {
            assert(self@.dom().contains(self.entries@[0].0@));
            false
        }
    }

    /// The name of the member at position `i` of the ascending order.
    pub fn name_at(&self, i: usize) -> (name: &str)
        requires
            i < in_order(self@.dom()).len(),
        ensures
            name@ == in_order(self@.dom())[i as int],
            self@.dom().contains(name@),
    {
        proof {
            use_type_invariant(self);
            lemma_listed(self.entries@);
            lemma_entries(self.entries@);
        }
        self.entries[i].0.as_str()
    }

    /// The value of the member at position `i` of the ascending order.
    pub fn value_at(&self, i: usize) -> (value: &Json)
        requires
            i < in_order(self@.dom()).len(),
        ensures
            value@ == self@[in_order(self@.dom())[i as int]],
    {
        proof {
            use_type_invariant(self);
            lemma_listed(self.entries@);
            lemma_entries(self.entries@);
        }
        &self.entries[i].1
    }
}

proof fn lemma_same_entries(a: Seq<(String, Json)>, b: Seq<(String, Json)>)
    requires
        a.len() == b.len(),
        forall|i: int|
            0 <= i < a.len() ==> (#[trigger] a[i]).0@ == b[i].0@ && tree(a[i].1) == tree(b[i].1),
    ensures
        entry_trees(a) == entry_trees(b),
        names(a) == names(b),
    decreases a.len(),
{
    assert(names(a) =~= names(b));
    if a.len() > 0 {
        let x = a.subrange(0, a.len() - 1);
        let y = b.subrange(0, b.len() - 1);
        assert forall|i: int| 0 <= i < x.len() implies (#[trigger] x[i]).0@ == y[i].0@ && tree(x[i].1)
            == tree(y[i].1) by {
            assert(x[i] == a[i]);
        }
        lemma_same_entries(x, y);
        assert(a[a.len() - 1].0@ == b[b.len() - 1].0@);
    }
}

impl Clone for JsonMap {
    fn clone(&self) -> (r: Self)
        ensures
            r@ == self@,
        decreases self,
    {
        proof {
            use_type_invariant(self);
        }
        let mut entries: Vec<(String, Json)> = Vec::new();
        let mut i: usize = 0;
        while i < self.entries.len()
            invariant
                i <= self.entries@.len(),
                entries@.len() == i,
                forall|j: int|
                    0 <= j < i ==> (#[trigger] entries@[j]).0@ == self.entries@[j].0@ && tree(
                        entries@[j].1,
                    ) == tree(self.entries@[j].1),
            decreases self.entries@.len() - i,
        {
            assert(decreases_to!(self.entries@ => self.entries@[i as int]));
            entries.push((self.entries[i].0.clone(), self.entries[i].1.clone()));
            i = i + 1;
        }
        proof {
            lemma_same_entries(entries@, self.entries@);
        }
        JsonMap { entries }
    }
}

impl Clone for Json {
    fn clone(&self) -> (r: Self)
        ensures
            r@ == self@,
        decreases self,
    {
        match self {
            Json::Null => Json::Null,
            Json::Bool(b) => Json::Bool(*b),
            Json::Number(n) => Json::Number(same_number(n)),
            Json::Text(s) => Json::Text(s.clone()),
            Json::Array(items) => {
                let mut copied: Vec<Json> = Vec::new();
                let mut i: usize = 0;
                while i < items.len()
                    invariant
                        *self == Json::Array(*items),
                        i <= items@.len(),
                        copied@.len() == i,
                        forall|j: int| 0 <= j < i ==> tree(#[trigger] copied@[j]) == tree(items@[j]),
                    decreases items@.len() - i,
                {
                    assert(decreases_to!(*self => self->Array_0));
                    assert(decreases_to!(self->Array_0 => self->Array_0[i as int]));
                    copied.push(items[i].clone());
                    i = i + 1;
                }
                assert(trees(copied@) =~= trees(items@));
                Json::Array(copied)
            },
            Json::Object(members) => Json::Object(members.clone()),
        }
    }
}

proof fn lemma_member_held(members: Seq<(String, serde_json::Value)>, i: int)
    requires
        names_differ(members),
        0 <= i < members.len(),
    ensures
        members_held(members).dom().contains(members[i].0@),
        members_held(members)[members[i].0@] == json_held(members[i].1),
        members_held(members).dom().finite(),
    decreases members.len(),
{
    let less = members.drop_last();
    if i < members.len() - 1 {
        assert(less[i] == members[i]);
        assert(members[i].0@ != members[members.len() - 1].0@);
        lemma_member_held(less, i);
    }
    lemma_members_finite(less);
}

proof fn lemma_members_finite(members: Seq<(String, serde_json::Value)>)
    ensures
        members_held(members).dom().finite(),
    decreases members.len(),
{
    if members.len() > 0 {
        lemma_members_finite(members.drop_last());
    }
}

/// The library's own value for a `serde_json` value.
pub fn json_of(v: serde_json::Value) -> (j: Json)
    ensures
        j@ == json_held(v),
    decreases json_held(v),
{
    let ghost held = json_held(v);
    match take_apart(v) {
        JsonLevel::Null => Json::Null,
        JsonLevel::Bool(b) => Json::Bool(b),
        JsonLevel::Number(n) => Json::Number(n),
        JsonLevel::Text(s) => Json::Text(s),
        JsonLevel::Array(items) => {
            let ghost all = items@;
            let mut read: Vec<Json> = Vec::new();
            assert(held->Array_0.len() == all.len());
            for item in it: items
                invariant
                    it.seq() == all,
                    held is Array,
                    json_held(v) == held,
                    held->Array_0 == Seq::new(all.len(), |i: int| json_held(all[i])),
                    read@.len() == it.index(),
                    forall|j: int| 0 <= j < it.index() ==> tree(#[trigger] read@[j]) == json_held(all[j]),
            {
                let ghost k = it.index();
                assert(held->Array_0[k] == json_held(item));
                assert(decreases_to!(held->Array_0 => held->Array_0[k]));
                read.push(json_of(item));
            }
            assert(trees(read@) =~= held->Array_0);
            Json::Array(read)
        },
        JsonLevel::Object(members) => {
            let ghost all = members@;
            let mut read: JsonMap = JsonMap::new();
            for entry in it: members
                invariant
                    it.seq() == all,
                    held is Object,
                    json_held(v) == held,
                    held->Object_0 == members_held(all),
                    names_differ(all),
                    read@ == members_held(all.take(it.index())),
            {
                let ghost k = it.index();
                proof {
                    lemma_member_held(all, k);
                    assert(entry == all[k]);
                    assert(decreases_to!(held->Object_0 => held->Object_0[all[k].0@]));
                    assert(all.take(k + 1).drop_last() =~= all.take(k));
                }
                let (name, value) = entry;
                read.insert(name, json_of(value));
            }
            assert(all.take(all.len() as int) =~= all);
            Json::Object(read)
        },
    }
}

/// The `serde_json` value for one of the library's own.
pub fn value_of(j: &Json) -> (v: serde_json::Value)
    ensures
        json_held(v) == j@,
    decreases j,
{
    let level = match j {
        Json::Null => JsonLevel::Null,
        Json::Bool(b) => JsonLevel::Bool(*b),
        Json::Number(n) => JsonLevel::Number(same_number(n)),
        Json::Text(s) => JsonLevel::Text(s.clone()),
        Json::Array(items) => {
            let mut values: Vec<serde_json::Value> = Vec::new();
            let mut i: usize = 0;
            while i < items.len()
                invariant
                    *j == Json::Array(*items),
                    i <= items@.len(),
                    values@.len() == i,
                    forall|k: int|
                        0 <= k < i ==> json_held(#[trigger] values@[k]) == tree(items@[k]),
                decreases items@.len() - i,
            {
                assert(decreases_to!(*j => j->Array_0));
                assert(decreases_to!(j->Array_0 => j->Array_0[i as int]));
                values.push(value_of(&items[i]));
                i = i + 1;
            }
            assert(Seq::new(values@.len(), |k: int| json_held(values@[k])) =~= trees(items@));
            JsonLevel::Array(values)
        },
        Json::Object(members) => JsonLevel::Object(values_of(members)),
    };
    put_together(level)
}

/// The members of an object with their `serde_json` values.
fn values_of(m: &JsonMap) -> (members: Vec<(String, serde_json::Value)>)
    ensures
        members_held(members@) == m@,
        names_differ(members@),
    decreases m,
{
    proof {
        use_type_invariant(m);
    }
    let mut members: Vec<(String, serde_json::Value)> = Vec::new();
    let mut i: usize = 0;
    assert(entry_trees(m.entries@.take(0)) =~= members_held(members@));
    while i < m.entries.len()
        invariant
            i <= m.entries@.len(),
            members_held(members@) == entry_trees(m.entries@.take(i as int)),
            members@.len() == i,
            forall|j: int| 0 <= j < i ==> (#[trigger] members@[j]).0@ == names(m.entries@)[j],
            ascending(names(m.entries@)),
        decreases m.entries@.len() - i,
    {
        assert(decreases_to!(m.entries@ => m.entries@[i as int]));
        let ghost before = members@;
        members.push((m.entries[i].0.clone(), value_of(&m.entries[i].1)));
        i = i + 1;
        proof {
            assert(members@.drop_last() =~= before);
            let taken = m.entries@.take(i as int);
            assert(taken.subrange(0, taken.len() - 1) =~= m.entries@.take(i - 1));
        }
    }
    assert(m.entries@.take(i as int) =~= m.entries@);
    proof {
        assert forall|j: int, k: int| 0 <= j < k < members@.len() implies members@[j].0@
            != members@[k].0@ by {
            assert(name_before(names(m.entries@)[j], names(m.entries@)[k]));
            lemma_before_irreflexive(members@[j].0@);
        }
    }
    members
}

impl Json {
    /// The value that the JSON text `bytes` says.
    pub fn read(bytes: &[u8]) -> (r: Result<Json, String>)
        ensures
            match r {
                Ok(j) => json_read(bytes@) is Ok && json_read(bytes@)->Ok_0 == j@,
                Err(fault) => json_read(bytes@) is Err && json_read(bytes@)->Err_0 == fault@,
            },
    {
        match read_value(bytes) {
            Ok(v) => Ok(json_of(v)),
            Err(fault) => Err(fault),
        }
    }

    /// The JSON text of this value.
    pub fn write(&self) -> (r: Result<Vec<u8>, String>)
        ensures
            r is Ok,
            r->Ok_0@ == json_text(self@),
            r->Ok_0@.len() > 0,
            reads_back(self@, NESTING_LIMIT as nat) ==> json_read(r->Ok_0@) is Ok && json_read(
                r->Ok_0@,
            )->Ok_0 == self@,
    {
        write_value(&value_of(self))
    }

    /// A text.
    pub fn text(s: &str) -> (r: Json)
        ensures
            r@ == JsonTree::Text(s@),
    {
        Json::Text(s.to_owned())
    }

    /// The text that this value is, if it is one.
    pub fn as_str(&self) -> (r: Option<&str>)
        ensures
            match r {
                Some(s) => as_text(self@) == Some(s@),
                None => as_text(self@) is None,
            },
    {
        match self {
            Json::Text(s) => Some(s.as_str()),
            _ => None,
        }
    }

    /// The items of this value, if it is an array.
    pub fn as_array(&self) -> (r: Option<&Vec<Json>>)
        ensures
            match r {
                Some(items) => self@ == JsonTree::Array(trees(items@)),
                None => !(self@ is Array),
            },
    {
        match self {
            Json::Array(items) => Some(items),
            _ => None,
        }
    }

    /// The members of this value, if it is an object.
    pub fn as_object(&self) -> (r: Option<&JsonMap>)
        ensures
            match r {
                Some(members) => self@ == JsonTree::Object(members@),
                None => !(self@ is Object),
            },
    {
        match self {
            Json::Object(members) => Some(members),
            _ => None,
        }
    }

    /// The member `name` of this value, if it is an object that has one.
    pub fn get(&self, name: &str) -> (r: Option<&Json>)
        ensures
            match r {
                Some(j) => member(self@, name@) == Some(j@),
                None => member(self@, name@) is None,
            },
    {
        match self {
            Json::Object(members) => members.get(name),
            _ => None,
        }
    }
}

impl JsonMap {
    /// The member `name`, if it is there and is a text.
    pub fn get_str(&self, name: &str) -> (r: Option<&str>)
        ensures
            match r {
                Some(s) => text_member(JsonTree::Object(self@), name@) == Some(s@),
                None => text_member(JsonTree::Object(self@), name@) is None,
            },
    {
        match self.get(name) {
            Some(j) => j.as_str(),
            None => None,
        }
    }
}

/// The texts among `items`.
pub(crate) fn texts_of(items: &Vec<Json>) -> (r: Vec<String>)
    ensures
        texts(r@) == text_items(trees(items@)),
{
    let mut r: Vec<String> = Vec::new();
    let mut i: usize = 0;
    let ghost said = trees(items@);
    assert(texts(r@) =~= text_items(said.take(0)));
    while i < items.len()
        invariant
            i <= items@.len(),
            said == trees(items@),
            texts(r@) == text_items(said.take(i as int)),
        decreases items@.len() - i,
    {
        proof {
            assert(said.take(i + 1).drop_last() =~= said.take(i as int));
            assert(said.take(i + 1).last() == tree(items@[i as int]));
        }
        match items[i].as_str() {
            Some(s) => {
                let ghost before = texts(r@);
                r.push(s.to_owned());
                assert(texts(r@) =~= before.push(s@));
            },
            None => {},
        }
        i = i + 1;
    }
    assert(said.take(i as int) =~= said);
    r
}

/// The JSON array of the texts of `list`.
pub(crate) fn texts_to_json(list: &Vec<String>) -> (r: Json)
    ensures
        r@ == JsonTree::Array(text_trees(texts(list@))),
{
    let mut items: Vec<Json> = Vec::new();
    let mut i: usize = 0;
    while i < list.len()
        invariant
            i <= list@.len(),
            items@.len() == i,
            forall|j: int| 0 <= j < i ==> tree(#[trigger] items@[j]) == JsonTree::Text(list@[j]@),
        decreases list@.len() - i,
    {
        items.push(Json::Text(list[i].clone()));
        i = i + 1;
    }
    assert(trees(items@) =~= text_trees(texts(list@)));
    Json::Array(items)
}

/// The texts of a list of texts are the list.
pub proof fn lemma_text_items(list: Seq<Seq<char>>)
    ensures
        text_items(text_trees(list)) == list,
    decreases list.len(),
{
    if list.len() == 0 {
        assert(list =~= seq![]);
    } else {
        assert(text_trees(list).drop_last() =~= text_trees(list.drop_last()));
        lemma_text_items(list.drop_last());
        assert(list.drop_last().push(list.last()) =~= list);
    }
}

/// Whether no floating-point number stands in `t`, and at most `levels` arrays and
/// objects stand in one another.
pub open spec fn float_free(t: JsonTree, levels: nat) -> bool
    decreases levels,
{
    match t {
        JsonTree::Number(n) => !held_as_float(n),
        JsonTree::Array(items) => levels > 0 && forall|i: int|
            0 <= i < items.len() ==> float_free(#[trigger] items[i], (levels - 1) as nat),
        JsonTree::Object(members) => levels > 0 && forall|name: Seq<char>| #[trigger]
            members.dom().contains(name) ==> float_free(members[name], (levels - 1) as nat),
        _ => true,
    }
}

/// What is free of floating-point numbers reads back as it was written.
pub proof fn law_float_free_reads_back(t: JsonTree, levels: nat)
    requires
        float_free(t, levels),
    ensures
        reads_back(t, levels),
    decreases levels,
{
    match t {
        JsonTree::Array(items) => {
            assert forall|i: int| 0 <= i < items.len() implies reads_back(
                #[trigger] items[i],
                (levels - 1) as nat,
            ) by {
                law_float_free_reads_back(items[i], (levels - 1) as nat);
            }
        },
        JsonTree::Object(members) => {
            assert forall|name: Seq<char>| #[trigger]
                members.dom().contains(name) implies reads_back(
                members[name],
                (levels - 1) as nat,
            ) by {
                law_float_free_reads_back(members[name], (levels - 1) as nat);
            }
        },
        _ => {},
    }
}

impl Json {
    /// Whether no floating-point number stands in this value, and at most
    /// `levels` arrays and objects stand in one another.
    pub fn is_float_free(&self, levels: u8) -> (r: bool)
        ensures
            r == float_free(self@, levels as nat),
        decreases levels,
    {
        match self {
            Json::Number(n) => !is_float(n),
            Json::Array(items) => {
                if levels == 0 {
                    return false;
                }
                let ghost said = trees(items@);
                let mut i: usize = 0;
                while i < items.len()
                    invariant
                        levels > 0,
                        i <= items@.len(),
                        said == trees(items@),
                        self@ == JsonTree::Array(said),
                        forall|j: int|
                            0 <= j < i ==> float_free(#[trigger] said[j], (levels - 1) as nat),
                    decreases items@.len() - i,
                {
                    assert(said[i as int] == items@[i as int]@);
                    if !items[i].is_float_free(levels - 1) {
                        assert(!float_free(self@->Array_0[i as int], (levels - 1) as nat));
                        return false;
                    }
                    i = i + 1;
                }
                true
            },
            Json::Object(members) => {
                if levels == 0 {
                    return false;
                }
                let ghost names = in_order(members@.dom());
                let n: usize = members.len();
                let mut i: usize = 0;
                while i < n
                    invariant
                        levels > 0,
                        names == in_order(members@.dom()),
                        lists(names, members@.dom()),
                        n == names.len(),
                        i <= n,
                        self@ == JsonTree::Object(members@),
                        forall|j: int|
                            0 <= j < i ==> float_free(
                                members@[#[trigger] names[j]],
                                (levels - 1) as nat,
                            ),
                    decreases n - i,
                {
                    if !members.value_at(i).is_float_free(levels - 1) {
                        assert(names.contains(names[i as int]));
                        assert(self@->Object_0.dom().contains(names[i as int]));
                        return false;
                    }
                    i = i + 1;
                }
                proof {
                    assert forall|name: Seq<char>| #[trigger]
                        members@.dom().contains(name) implies float_free(
                        members@[name],
                        (levels - 1) as nat,
                    ) by {
                        assert(names.contains(name));
                    }
                }
                true
            },
            _ => true,
        }
    }
}

// --------------------------------------------------------------- laws

/// A value says what it holds: itself, or the characters, the items one by one, or
/// the members.
pub proof fn law_value_says_what_it_holds(
    b: bool,
    n: serde_json::Number,
    s: String,
    items: Vec<Json>,
    members: JsonMap,
)
    ensures
        Json::Null@ == JsonTree::Null,
        Json::Bool(b)@ == JsonTree::Bool(b),
        Json::Number(n)@ == JsonTree::Number(n),
        Json::Text(s)@ == JsonTree::Text(s@),
        Json::Object(members)@ == JsonTree::Object(members@),
        Json::Array(items)@ is Array,
        Json::Array(items)@->Array_0.len() == items@.len(),
        forall|i: int|
            0 <= i < items@.len() ==> Json::Array(items)@->Array_0[i] == (#[trigger] items@[i])@,
{
    reveal_with_fuel(tree, 2);
    assert(Json::Array(items)@ == JsonTree::Array(trees(items@)));
}

/// A member of an object is what stands there under its name. What is no object has
/// no members.
pub proof fn law_member_is_what_stands_there(
    members: Map<Seq<char>, JsonTree>,
    name: Seq<char>,
    other: JsonTree,
)
    ensures
        members.dom().contains(name) ==> member(JsonTree::Object(members), name) == Some(
            members[name],
        ),
        !members.dom().contains(name) ==> member(JsonTree::Object(members), name) is None,
        !(other is Object) ==> member(other, name) is None,
{
}

/// The text under a name is what stands there, if that is a text, to the last
/// character.
pub proof fn law_text_member_is_the_text_there(
    members: Map<Seq<char>, JsonTree>,
    name: Seq<char>,
    text: Seq<char>,
)
    ensures
        text_member(JsonTree::Object(members), name) == Some(text) <==> members.dom().contains(name)
            && members[name] == JsonTree::Text(text),
{
}

/// The texts among items are those that are texts, each as it is, and in their
/// order: the list can be read piece by piece.
pub proof fn law_texts_are_read_piece_by_piece(
    before: Seq<JsonTree>,
    after: Seq<JsonTree>,
    text: Seq<char>,
    other: JsonTree,
)
    requires
        !(other is Text),
    ensures
        text_items(before + after) == text_items(before) + text_items(after),
        text_items(seq![JsonTree::Text(text)]) == seq![text],
        text_items(seq![other]) == Seq::<Seq<char>>::empty(),
        text_items(Seq::<JsonTree>::empty()) == Seq::<Seq<char>>::empty(),
    decreases after.len(),
{
    reveal_with_fuel(text_items, 2);
    let one = seq![JsonTree::Text(text)];
    assert(one.drop_last() =~= Seq::<JsonTree>::empty());
    assert(text_items(one) =~= seq![text]);
    assert(seq![other].drop_last() =~= Seq::<JsonTree>::empty());
    if after.len() == 0 {
        assert(before + after =~= before);
        assert(text_items(before) + text_items(after) =~= text_items(before));
    } else {
        let less = after.drop_last();
        law_texts_are_read_piece_by_piece(before, less, text, other);
        assert((before + after).drop_last() =~= before + less);
        assert(text_items(before + after) =~= text_items(before) + text_items(after));
    }
}

/// The list of texts under a name is read from the array there; where there is none
/// it is empty.
pub proof fn law_text_list_is_read_from_the_array(
    members: Map<Seq<char>, JsonTree>,
    name: Seq<char>,
)
    ensures
        members.dom().contains(name) && members[name] is Array ==> text_list(
            JsonTree::Object(members),
            name,
        ) == text_items(members[name]->Array_0),
        !(members.dom().contains(name) && members[name] is Array) ==> text_list(
            JsonTree::Object(members),
            name,
        ).len() == 0,
{
}

/// Texts, truth values and null are free of floating-point numbers at any depth, and
/// a number is if it is no such number. An array or an object is never so without a
/// level to stand on, and is so when empty; and one item or member more is free of
/// them if it is so itself, one level down.
pub proof fn law_float_free_item_by_item(
    items: Seq<JsonTree>,
    members: Map<Seq<char>, JsonTree>,
    name: Seq<char>,
    t: JsonTree,
    levels: nat,
)
    ensures
        t is Null || t is Bool || t is Text ==> float_free(t, levels),
        t matches JsonTree::Number(n) ==> (float_free(t, levels) <==> !held_as_float(n)),
        t is Array || t is Object ==> !float_free(t, 0),
        float_free(JsonTree::Array(seq![]), levels + 1),
        float_free(JsonTree::Object(Map::empty()), levels + 1),
        float_free(JsonTree::Array(items.push(t)), levels + 1) <==> float_free(
            JsonTree::Array(items),
            levels + 1,
        ) && float_free(t, levels),
        !members.dom().contains(name) ==> (float_free(
            JsonTree::Object(members.insert(name, t)),
            levels + 1,
        ) <==> float_free(JsonTree::Object(members), levels + 1) && float_free(t, levels)),
{
    reveal_with_fuel(float_free, 2);
    let more = items.push(t);
    let n = items.len() as int;
    assert(more[n] == t);
    assert forall|i: int| 0 <= i < n implies more[i] == #[trigger] items[i] by {}
    let whole = JsonTree::Array(more);
    assert(whole->Array_0 == more);
    if float_free(whole, levels + 1) {
        assert(float_free(whole->Array_0[n], levels));
        assert forall|i: int| 0 <= i < n implies float_free(#[trigger] items[i], levels) by {
            assert(float_free(whole->Array_0[i], levels));
        }
    }
    let part = JsonTree::Array(items);
    assert(part->Array_0 == items);
    if float_free(part, levels + 1) && float_free(t, levels) {
        assert forall|i: int| 0 <= i < whole->Array_0.len() implies float_free(
            #[trigger] whole->Array_0[i],
            levels,
        ) by {
            if i < n {
                assert(float_free(part->Array_0[i], levels));
            }
        }
    }
    let wider = JsonTree::Object(members.insert(name, t));
    let narrow = JsonTree::Object(members);
    assert(wider->Object_0 == members.insert(name, t));
    assert(narrow->Object_0 == members);
    if !members.dom().contains(name) {
        if float_free(wider, levels + 1) {
            assert(wider->Object_0.dom().contains(name));
            assert forall|k: Seq<char>| #[trigger]
                narrow->Object_0.dom().contains(k) implies float_free(
                narrow->Object_0[k],
                levels,
            ) by {
                assert(wider->Object_0.dom().contains(k));
            }
        }
        if float_free(narrow, levels + 1) && float_free(t, levels) {
            assert forall|k: Seq<char>| #[trigger]
                wider->Object_0.dom().contains(k) implies float_free(
                wider->Object_0[k],
                levels,
            ) by {
                if k != name {
                    assert(narrow->Object_0.dom().contains(k));
                }
            }
        }
    }
}

} // verus!
