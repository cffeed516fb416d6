//! Structured fields recorded on events and spans: named values kept in a
//! map with one value per name.
use vstd::prelude::*;
use crate::text::str_eq;

verus! {

/// A recorded field value, as it will appear in the emitted JSON.
#[derive(Debug, PartialEq)]
pub enum FieldValue {
    /// A string (also the rendering of a value recorded by its `Debug` form).
    Str(String),
    /// A signed integer.
    I64(i64),
    /// An unsigned integer.
    U64(u64),
    /// A boolean.
    Bool(bool),
    /// A finite floating-point number, held as its IEEE 754 bit pattern.
    F64Bits(u64),
    /// JSON `null`: what a non-finite floating-point number is recorded as.
    Null,
}

/// The mathematical value of a `FieldValue`.
pub enum FieldData {
    Str(Seq<char>),
    I64(i64),
    U64(u64),
    Bool(bool),
    F64Bits(u64),
    Null,
}

impl View for FieldValue {
    type V = FieldData;

    open spec fn view(&self) -> FieldData {
        match self {
            FieldValue::Str(s) => FieldData::Str(s@),
            FieldValue::I64(v) => FieldData::I64(*v),
            FieldValue::U64(v) => FieldData::U64(*v),
            FieldValue::Bool(v) => FieldData::Bool(*v),
            FieldValue::F64Bits(v) => FieldData::F64Bits(*v),
            FieldValue::Null => FieldData::Null,
        }
    }
}

impl FieldValue {
    /// A copy of the value.
    pub fn duplicate(&self) -> (r: FieldValue)
        ensures
            r@ == self@,
    {
        match self {
            FieldValue::Str(s) => FieldValue::Str(s.clone()),
            FieldValue::I64(v) => FieldValue::I64(*v),
            FieldValue::U64(v) => FieldValue::U64(*v),
            FieldValue::Bool(v) => FieldValue::Bool(*v),
            FieldValue::F64Bits(v) => FieldValue::F64Bits(*v),
            FieldValue::Null => FieldValue::Null,
        }
    }
}

/// No name occurs twice among the entries.
pub open spec fn names_distinct(s: Seq<(String, FieldValue)>) -> bool {
    forall|i: int, j: int| 0 <= i < s.len() && 0 <= j < s.len() && i != j ==> s[i].0@ != s[j].0@
}

/// Some entry of `s` has the name `k`.
pub open spec fn has_name(s: Seq<(String, FieldValue)>, k: Seq<char>) -> bool {
    exists|i: int| 0 <= i < s.len() && s[i].0@ == k
}

/// The map from names to values that the entries hold.
pub open spec fn entries_map(s: Seq<(String, FieldValue)>) -> Map<Seq<char>, FieldData> {
    Map::new(
        |k: Seq<char>| has_name(s, k),
        |k: Seq<char>| s[choose|i: int| 0 <= i < s.len() && s[i].0@ == k].1@,
    )
}

/// In entries with distinct names, the map gives each entry's value.
pub proof fn lemma_entries_map_at(s: Seq<(String, FieldValue)>, i: int)
    requires
        names_distinct(s),
        0 <= i < s.len(),
    ensures
        entries_map(s).contains_key(s[i].0@),
        entries_map(s)[s[i].0@] == s[i].1@,
{
    let k = s[i].0@;
    assert(has_name(s, k));
    let c = choose|c: int| 0 <= c < s.len() && s[c].0@ == k;
    assert(c == i);
}

/// Appending an entry with a new name adds that name to the map.
pub proof fn lemma_entries_map_push(s: Seq<(String, FieldValue)>, e: (String, FieldValue))
    requires
        names_distinct(s),
        !has_name(s, e.0@),
    ensures
        names_distinct(s.push(e)),
        entries_map(s.push(e)) =~= entries_map(s).insert(e.0@, e.1@),
{
    let t = s.push(e);
    assert forall|i: int, j: int| 0 <= i < t.len() && 0 <= j < t.len() && i != j implies t[i].0@
        != t[j].0@ by {
        if i < s.len() && j < s.len() {
            assert(t[i] == s[i] && t[j] == s[j]);
        } else if i < s.len() {
            assert(t[i] == s[i]);
        } else {
            assert(t[j] == s[j]);
        }
    }
    assert forall|k: Seq<char>| #[trigger] has_name(t, k) <==> has_name(s, k) || k == e.0@ by {
        if has_name(s, k) {
            let i = choose|i: int| 0 <= i < s.len() && s[i].0@ == k;
            assert(t[i] == s[i]);
        }
        if k == e.0@ {
            assert(t[s.len() as int] == e);
        }
        if has_name(t, k) {
            let i = choose|i: int| 0 <= i < t.len() && t[i].0@ == k;
            if i < s.len() {
                assert(t[i] == s[i]);
            }
        }
    }
    assert forall|k: Seq<char>| #[trigger] entries_map(t).contains_key(k) implies entries_map(
        t,
    )[k] == entries_map(s).insert(e.0@, e.1@)[k] by {
        let i = choose|i: int| 0 <= i < t.len() && t[i].0@ == k;
        lemma_entries_map_at(t, i);
        if i < s.len() {
            assert(t[i] == s[i]);
            lemma_entries_map_at(s, i);
        }
    }
}

/// Removing an entry removes its name from the map.
pub proof fn lemma_entries_map_remove(s: Seq<(String, FieldValue)>, i: int)
    requires
        names_distinct(s),
        0 <= i < s.len(),
    ensures
        names_distinct(s.remove(i)),
        entries_map(s.remove(i)) =~= entries_map(s).remove(s[i].0@),
{
    let t = s.remove(i);
    let k = s[i].0@;
    assert forall|a: int, b: int| 0 <= a < t.len() && 0 <= b < t.len() && a != b implies t[a].0@
        != t[b].0@ by {
        let sa = if a < i { a } else { a + 1 };
        let sb = if b < i { b } else { b + 1 };
        assert(t[a] == s[sa] && t[b] == s[sb]);
    }
    assert forall|q: Seq<char>| #[trigger] has_name(t, q) <==> (has_name(s, q) && q != k) by {
        if has_name(t, q) {
            let a = choose|a: int| 0 <= a < t.len() && t[a].0@ == q;
            let sa = if a < i { a } else { a + 1 };
            assert(t[a] == s[sa]);
        }
        if has_name(s, q) && q != k {
            let a = choose|a: int| 0 <= a < s.len() && s[a].0@ == q;
            if a < i {
                assert(t[a] == s[a]);
            } else {
                assert(t[a - 1] == s[a]);
            }
        }
    }
    assert forall|q: Seq<char>| #[trigger] entries_map(t).contains_key(q) implies entries_map(t)[q]
        == entries_map(s).remove(k)[q] by {
        let a = choose|a: int| 0 <= a < t.len() && t[a].0@ == q;
        let sa = if a < i { a } else { a + 1 };
        assert(t[a] == s[sa]);
        lemma_entries_map_at(t, a);
        lemma_entries_map_at(s, sa);
    }
}

/// The fields of `m` that an overlay copies: all of them, or all but
/// `message`.
pub open spec fn overlaid(m: Map<Seq<char>, FieldData>, skip_message: bool) -> Map<
    Seq<char>,
    FieldData,
> {
    if skip_message {
        m.remove("message"@)
    } else {
        m
    }
}

/// Fields by name: each name maps to one value. The values are the
/// library's own `FieldValue`s, since a `serde_json::Map` can only hold
/// `serde_json::Value`s, which carry floating-point numbers.
pub struct FieldMap {
    entries: Vec<(String, FieldValue)>,
}

impl View for FieldMap {
    type V = Map<Seq<char>, FieldData>;

    closed spec fn view(&self) -> Map<Seq<char>, FieldData> {
        entries_map(self.entries@)
    }
}

impl FieldMap {
    #[verifier::type_invariant]
    closed spec fn inv(self) -> bool {
        names_distinct(self.entries@)
    }

    /// An empty map.
    pub fn new() -> (r: FieldMap)
        ensures
            r@ == Map::<Seq<char>, FieldData>::empty(),
    {
        let r = FieldMap { entries: Vec::new() };
        assert(r@ =~= Map::<Seq<char>, FieldData>::empty());
        r
    }

    /// Sets the value of `name`, replacing any value it had.
    pub fn insert(&mut self, name: String, value: FieldValue)
        ensures
            final(self)@ == old(self)@.insert(name@, value@),
    {
        proof {
            use_type_invariant(&*self);
        }
        let mut entries: Vec<(String, FieldValue)> = Vec::new();
        std::mem::swap(&mut entries, &mut self.entries);
        let ghost before = entries@;
        match position_of(&entries, name.as_str()) {
            Some(i) => {
                let ghost k = name@;
                let ghost v = value@;
                entries.set(i, (name, value));
                proof {
                    assert forall|a: int, b: int|
                        0 <= a < entries@.len() && 0 <= b < entries@.len() && a != b implies entries@[a].0@
                        != entries@[b].0@ by {
                        if a != i && b != i {
                            assert(entries@[a] == before[a] && entries@[b] == before[b]);
                        } else if a == i {
                            assert(entries@[b] == before[b]);
                        } else {
                            assert(entries@[a] == before[a]);
                        }
                    }
                    assert(entries@[i as int].0@ == before[i as int].0@);
                    assert forall|q: Seq<char>| #[trigger] has_name(entries@, q) <==> has_name(before, q) by {
                        if has_name(entries@, q) {
                            let j = choose|j: int| 0 <= j < entries@.len() && entries@[j].0@ == q;
                            if j != i {
                                assert(entries@[j] == before[j]);
                            }
                        }
                        if has_name(before, q) {
                            let j = choose|j: int| 0 <= j < before.len() && before[j].0@ == q;
                            if j != i {
                                assert(entries@[j] == before[j]);
                            }
                        }
                    }
                    assert forall|q: Seq<char>| #[trigger] entries_map(entries@).contains_key(q)
                        implies entries_map(entries@)[q] == entries_map(before).insert(k, v)[q] by {
                        let j = choose|j: int| 0 <= j < entries@.len() && entries@[j].0@ == q;
                        lemma_entries_map_at(entries@, j);
                        if j != i {
                            assert(entries@[j] == before[j]);
                            lemma_entries_map_at(before, j);
                        }
                    }
                    assert(entries_map(entries@) =~= entries_map(before).insert(k, v));
                }
            },
            None => {
                proof {
                    lemma_entries_map_push(before, (name, value));
                }
                entries.push((name, value));
            },
        }
        self.entries = entries;
    }

    /// Removes `name` and returns the value it had.
    pub fn remove(&mut self, name: &str) -> (r: Option<FieldValue>)
        ensures
            final(self)@ == old(self)@.remove(name@),
            match r {
                Some(v) => old(self)@.contains_key(name@) && v@ == old(self)@[name@],
                None => !old(self)@.contains_key(name@),
            },
    {
        proof {
            use_type_invariant(&*self);
        }
        let mut entries: Vec<(String, FieldValue)> = Vec::new();
        std::mem::swap(&mut entries, &mut self.entries);
        let ghost before = entries@;
        let r = match position_of(&entries, name) {
            Some(i) => {
                proof {
                    lemma_entries_map_at(before, i as int);
                    lemma_entries_map_remove(before, i as int);
                }
                let (_, v) = entries.remove(i);
                Some(v)
            },
            None => {
                assert(entries_map(before).remove(name@) =~= entries_map(before));
                None
            },
        };
        self.entries = entries;
        r
    }

    /// The value recorded for `name`, if any.
    pub fn get(&self, name: &str) -> (r: Option<&FieldValue>)
        ensures
            match r {
                Some(v) => self@.contains_key(name@) && v@ == self@[name@],
                None => !self@.contains_key(name@),
            },
    {
        proof {
            use_type_invariant(self);
        }
        match position_of(&self.entries, name) {
            Some(i) => {
                proof {
                    lemma_entries_map_at(self.entries@, i as int);
                }
                Some(&self.entries[i].1)
            },
            None => None,
        }
    }

    /// Whether no field is recorded.
    pub fn is_empty(&self) -> (r: bool)
        ensures
            r == (self@ == Map::<Seq<char>, FieldData>::empty()),
    {
        proof {
            use_type_invariant(self);
        }
        if self.entries.len() == 0 {
            assert(self@ =~= Map::<Seq<char>, FieldData>::empty());
            true
        } else {
            proof {
                lemma_entries_map_at(self.entries@, 0);
                assert(!Map::<Seq<char>, FieldData>::empty().contains_key(self.entries@[0].0@));
            }
            false
        }
    }

    /// The entries, one per name.
    pub fn entries(&self) -> (r: &Vec<(String, FieldValue)>)
        ensures
            names_distinct(r@),
            entries_map(r@) == self@,
    {
        proof {
            use_type_invariant(self);
        }
        &self.entries
    }

    /// Copies every field of `other` into this map, replacing values of
    /// names both hold; with `skip_message`, a field named `message` is not
    /// copied.
    pub fn overlay(&mut self, other: &FieldMap, skip_message: bool)
        ensures
            final(self)@ == old(self)@.union_prefer_right(overlaid(other@, skip_message)),
    {
        proof {
            use_type_invariant(other);
        }
        let n = other.entries.len();
        let mut i: usize = 0;
        assert(other.entries@.take(0) =~= Seq::<(String, FieldValue)>::empty());
        assert(overlaid(entries_map(other.entries@.take(0)), skip_message) =~= Map::<
            Seq<char>,
            FieldData,
        >::empty());
        assert(old(self)@.union_prefer_right(Map::<Seq<char>, FieldData>::empty()) =~= old(self)@);
        while i < n
            invariant
                n == other.entries@.len(),
                i <= n,
                names_distinct(other.entries@),
                self@ == old(self)@.union_prefer_right(
                    overlaid(entries_map(other.entries@.take(i as int)), skip_message),
                ),
            decreases n - i,
        {
            let ghost pre = other.entries@.take(i as int);
            let ghost e = other.entries@[i as int];
            proof {
                assert(other.entries@.take(i + 1) =~= pre.push(e));
                assert(names_distinct(pre));
                assert(!has_name(pre, e.0@)) by {
                    if has_name(pre, e.0@) {
                        let j = choose|j: int| 0 <= j < pre.len() && pre[j].0@ == e.0@;
                        assert(other.entries@[j] == pre[j]);
                    }
                }
                lemma_entries_map_push(pre, e);
            }
            let name = &other.entries[i].0;
            let skip = skip_message && str_eq(name.as_str(), "message");
            if !skip {
                self.insert(name.clone(), other.entries[i].1.duplicate());
            }
            proof {
                let m = entries_map(pre);
                let m2 = m.insert(e.0@, e.1@);
                if skip {
                    assert(overlaid(m2, skip_message) =~= overlaid(m, skip_message));
                } else {
                    assert(overlaid(m2, skip_message) =~= overlaid(m, skip_message).insert(
                        e.0@,
                        e.1@,
                    ));
                }
                assert(self@ =~= old(self)@.union_prefer_right(overlaid(m2, skip_message)));
            }
            i = i + 1;
        }
        assert(other.entries@.take(n as int) =~= other.entries@);
    }
}

/// The position of the entry named `name`, if any.
fn position_of(entries: &Vec<(String, FieldValue)>, name: &str) -> (r: Option<usize>)
    ensures
        match r {
            Some(i) => i < entries.len() && entries@[i as int].0@ == name@,
            None => !has_name(entries@, name@),
        },
{
    let n = entries.len();
    let mut i: usize = 0;
    while i < n
        invariant
            n == entries.len(),
            i <= n,
            forall|j: int| 0 <= j < i ==> entries@[j].0@ != name@,
        decreases n - i,
    {
        if str_eq(entries[i].0.as_str(), name) {
            return Some(i);
        }
        i = i + 1;
    }
    None
}

/// Collects the fields recorded on an event or a span, one value per name;
/// a name recorded again keeps its latest value.
pub struct JsonVisitor {
    pub fields: FieldMap,
}

impl JsonVisitor {
    /// A visitor that has recorded nothing.
    pub fn new() -> (r: JsonVisitor)
        ensures
            r.fields@ == Map::<Seq<char>, FieldData>::empty(),
    {
        JsonVisitor { fields: FieldMap::new() }
    }

    /// A visitor that continues recording into `fields`.
    pub fn with_fields(fields: FieldMap) -> (r: JsonVisitor)
        ensures
            r.fields@ == fields@,
    {
        JsonVisitor { fields }
    }

    /// Records a string field.
    pub fn record_str(&mut self, name: &str, value: &str)
        ensures
            final(self).fields@ == old(self).fields@.insert(name@, FieldData::Str(value@)),
    {
        self.fields.insert(String::from_str(name), FieldValue::Str(String::from_str(value)));
    }

    /// Records a signed integer field.
    pub fn record_i64(&mut self, name: &str, value: i64)
        ensures
            final(self).fields@ == old(self).fields@.insert(name@, FieldData::I64(value)),
    {
        self.fields.insert(String::from_str(name), FieldValue::I64(value));
    }

    /// Records an unsigned integer field.
    pub fn record_u64(&mut self, name: &str, value: u64)
        ensures
            final(self).fields@ == old(self).fields@.insert(name@, FieldData::U64(value)),
    {
        self.fields.insert(String::from_str(name), FieldValue::U64(value));
    }

    /// Records a boolean field.
    pub fn record_bool(&mut self, name: &str, value: bool)
        ensures
            final(self).fields@ == old(self).fields@.insert(name@, FieldData::Bool(value)),
    {
        self.fields.insert(String::from_str(name), FieldValue::Bool(value));
    }

    /// Records a floating-point field, given as the bit pattern of the
    /// number when it is finite: a JSON number then, JSON `null` otherwise.
    pub fn record_f64(&mut self, name: &str, finite_bits: Option<u64>)
        ensures
            final(self).fields@ == old(self).fields@.insert(
                name@,
                match finite_bits {
                    Some(b) => FieldData::F64Bits(b),
                    None => FieldData::Null,
                },
            ),
    {
        let v = match finite_bits {
            Some(b) => FieldValue::F64Bits(b),
            None => FieldValue::Null,
        };
        self.fields.insert(String::from_str(name), v);
    }

    /// Records a field by the text of its `Debug` rendering.
    pub fn record_debug(&mut self, name: &str, rendered: String)
        ensures
            final(self).fields@ == old(self).fields@.insert(name@, FieldData::Str(rendered@)),
    {
        self.fields.insert(String::from_str(name), FieldValue::Str(rendered));
    }
}

} // verus!
