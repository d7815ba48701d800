//! The dynamically typed tree value used for parameters, shared state and
//! inter-stage data, together with its string-keyed mapping type.

use vstd::prelude::*;

verus! {

/// Mathematical model of a [`Value`]: the same tree shape over `Seq`, `Map`
/// and mathematical scalars. Contracts throughout the crate speak of this
/// model, never of the executable representation.
pub enum AbsValue {
    Null,
    Bool(bool),
    Int(i64),
    Text(Seq<char>),
    List(Seq<AbsValue>),
    Object(Map<Seq<char>, AbsValue>),
}

/// A dynamically typed tree value: null, boolean, integer, string, ordered
/// sequence, or string-keyed mapping.
pub enum Value {
    Null,
    Bool(bool),
    Int(i64),
    Text(String),
    List(Vec<Value>),
    Object(Dict),
}

/// A string-keyed mapping of [`Value`]s with unique keys. Insertion order is
/// irrelevant to its model, which is a `Map<Seq<char>, AbsValue>`.
pub struct Dict {
    entries: Vec<(String, Value)>,
}

impl Value {
    /// The model of this value.
    pub open spec fn view(self) -> AbsValue
        decreases self,
    {
        match self {
            Value::Null => AbsValue::Null,
            Value::Bool(b) => AbsValue::Bool(b),
            Value::Int(i) => AbsValue::Int(i),
            Value::Text(s) => AbsValue::Text(s@),
            Value::List(items) => AbsValue::List(list_model(items@)),
            Value::Object(d) => AbsValue::Object(d.view()),
        }
    }
}

/// The model of a sequence of values, element by element.
pub open spec fn list_model(s: Seq<Value>) -> Seq<AbsValue>
    decreases s,
{
    if s.len() == 0 {
        Seq::empty()
    } else {
        list_model(s.drop_last()).push(s.last().view())
    }
}

/// `list_model` maps the element models pointwise and keeps the order.
pub proof fn lemma_list_model(s: Seq<Value>)
    ensures
        list_model(s).len() == s.len(),
        forall|i: int| 0 <= i < s.len() ==> list_model(s)[i] == #[trigger] s[i].view(),
    decreases s.len(),
{
    if s.len() > 0 {
        lemma_list_model(s.drop_last());
        assert forall|i: int| 0 <= i < s.len() implies list_model(s)[i] == #[trigger] s[i].view() by {
            if i < s.len() - 1 {
                assert(s.drop_last()[i] == s[i]);
                assert(list_model(s)[i] == list_model(s.drop_last())[i]);
            } else {
                assert(s[i] == s.last());
            }
        }
    }
}

/// The map described by a sequence of key/value entries; a later entry for a
/// key overrides an earlier one.
spec fn entries_model(s: Seq<(String, Value)>) -> Map<Seq<char>, AbsValue>
    decreases s,
{
    if s.len() == 0 {
        Map::empty()
    } else {
        entries_model(s.drop_last()).insert(s.last().0@, s.last().1.view())
    }
}

/// No two entries of `s` carry the same key.
spec fn unique_keys(s: Seq<(String, Value)>) -> bool {
    forall|i: int, j: int| 0 <= i < j < s.len() ==> s[i].0@ != s[j].0@
}

/// The model's domain is exactly the set of entry keys.
proof fn lemma_entries_model_dom(s: Seq<(String, Value)>, k: Seq<char>)
    ensures
        entries_model(s).contains_key(k) <==> exists|i: int|
            0 <= i < s.len() && #[trigger] s[i].0@ == k,
    decreases s.len(),
{
    if s.len() > 0 {
        lemma_entries_model_dom(s.drop_last(), k);
        if s.last().0@ == k {
            assert(s[s.len() - 1].0@ == k);
        } else if entries_model(s).contains_key(k) {
            let i = choose|i: int| 0 <= i < s.drop_last().len() && #[trigger] s.drop_last()[i].0@ == k;
            assert(s[i].0@ == k);
        } else if exists|i: int| 0 <= i < s.len() && #[trigger] s[i].0@ == k {
            let i = choose|i: int| 0 <= i < s.len() && #[trigger] s[i].0@ == k;
            assert(s.drop_last()[i].0@ == k);
        }
    }
}

/// Under unique keys, the model maps each entry's key to that entry's value.
proof fn lemma_entries_model_index(s: Seq<(String, Value)>, i: int)
    requires
        unique_keys(s),
        0 <= i < s.len(),
    ensures
        entries_model(s).contains_key(s[i].0@),
        entries_model(s)[s[i].0@] == s[i].1.view(),
    decreases s.len(),
{
    if i == s.len() - 1 {
        assert(s[i] == s.last());
    } else {
        assert(s.drop_last()[i] == s[i]);
        lemma_entries_model_index(s.drop_last(), i);
        assert(s[i].0@ != s.last().0@);
    }
}

/// Replacing the entry that holds a key updates the model at that key alone.
proof fn lemma_entries_model_update(s: Seq<(String, Value)>, i: int, k: String, v: Value)
    requires
        unique_keys(s),
        0 <= i < s.len(),
        k@ == s[i].0@,
    ensures
        entries_model(s.update(i, (k, v))) == entries_model(s).insert(k@, v.view()),
    decreases s.len(),
{
    let t = s.update(i, (k, v));
    if i == s.len() - 1 {
        assert(t.drop_last() =~= s.drop_last());
        assert(t.last() == (k, v));
        assert(entries_model(s).insert(k@, v.view()) =~= entries_model(s.drop_last()).insert(
            k@,
            v.view(),
        ));
    } else {
        assert(t.drop_last() =~= s.drop_last().update(i, (k, v)));
        assert(s.drop_last()[i] == s[i]);
        lemma_entries_model_update(s.drop_last(), i, k, v);
        assert(t.last() == s.last());
        assert(k@ != s.last().0@);
        assert(entries_model(s.drop_last()).insert(k@, v.view()).insert(
            s.last().0@,
            s.last().1.view(),
        ) =~= entries_model(s.drop_last()).insert(s.last().0@, s.last().1.view()).insert(
            k@,
            v.view(),
        ));
    }
}

impl Dict {
    /// The model of this mapping.
    pub closed spec fn view(self) -> Map<Seq<char>, AbsValue>
        decreases self,
    {
        entries_model(self.entries@)
    }

    #[verifier::type_invariant]
    spec fn inv(self) -> bool {
        unique_keys(self.entries@)
    }

    /// An empty mapping.
    pub fn new() -> (r: Dict)
        ensures
            r@ == Map::<Seq<char>, AbsValue>::empty(),
    {
        Dict { entries: Vec::new() }
    }

    /// Binds `key` to `val`, replacing any existing binding of `key`.
    pub fn insert(&mut self, key: String, val: Value)
        ensures
            final(self)@ == old(self)@.insert(key@, val@),
    {
        proof {
            use_type_invariant(&*self);
        }
        let ghost s = self.entries@;
        let mut i: usize = 0;
        while i < self.entries.len()
            invariant
                self.entries@ == s,
                s == old(self).entries@,
                unique_keys(s),
                0 <= i <= s.len(),
                forall|j: int| 0 <= j < i ==> #[trigger] s[j].0@ != key@,
            decreases s.len() - i,
        {
            if self.entries[i].0 == key {
                let mut entries = Vec::new();
                std::mem::swap(&mut entries, &mut self.entries);
                let ghost idx = i as int;
                let ghost k = key;
                entries.set(i, (key, val));
                proof {
                    assert(entries@ == s.update(idx, (k, val)));
                    lemma_entries_model_update(s, idx, k, val);
                    assert forall|p: int, q: int|
                        0 <= p < q < entries@.len() implies entries@[p].0@ != entries@[q].0@ by {
                        assert(s[p].0@ != s[q].0@);
                        assert(entries@[p].0@ == s[p].0@);
                        assert(entries@[q].0@ == s[q].0@);
                    }
                }
                std::mem::swap(&mut entries, &mut self.entries);
                return;
            }
            i += 1;
        }
        let mut entries = Vec::new();
        std::mem::swap(&mut entries, &mut self.entries);
        entries.push((key, val));
        proof {
            assert(entries@.drop_last() =~= s);
            assert forall|p: int, q: int|
                0 <= p < q < entries@.len() implies entries@[p].0@ != entries@[q].0@ by {
                if q < s.len() {
                    assert(s[p].0@ != s[q].0@);
                } else {
                    assert(s[p].0@ != key@);
                }
            }
        }
        std::mem::swap(&mut entries, &mut self.entries);
    }

    /// Looks a key up; returns the bound value exactly when the key is bound.
    pub fn get(&self, key: &String) -> (r: Option<&Value>)
        ensures
            match r {
                Some(v) => self@.contains_key(key@) && v@ == self@[key@],
                None => !self@.contains_key(key@),
            },
    {
        proof {
            use_type_invariant(&*self);
        }
        let ghost s = self.entries@;
        let mut i: usize = 0;
        while i < self.entries.len()
            invariant
                self.entries@ == s,
                unique_keys(s),
                0 <= i <= s.len(),
                forall|j: int| 0 <= j < i ==> #[trigger] s[j].0@ != key@,
            decreases s.len() - i,
        {
            if self.entries[i].0 == *key {
                proof {
                    lemma_entries_model_index(s, i as int);
                }
                return Some(&self.entries[i].1);
            }
            i += 1;
        }
        proof {
            lemma_entries_model_dom(s, key@);
        }
        None
    }

    /// The mapping that binds every key of `self` or `base`, where a binding
    /// of `base` wins over one of `self` for the same key.
    pub fn extended_with(&self, base: &Dict) -> (r: Dict)
        ensures
            r@ == self@.union_prefer_right(base@),
    {
        let mut r = self.clone();
        let ghost b = base.entries@;
        let mut i: usize = 0;
        proof {
            assert(b.take(0int) =~= Seq::<(String, Value)>::empty());
            assert(self@.union_prefer_right(entries_model(b.take(0int))) =~= self@);
        }
        while i < base.entries.len()
            invariant
                base.entries@ == b,
                0 <= i <= b.len(),
                r@ == self@.union_prefer_right(entries_model(b.take(i as int))),
            decreases b.len() - i,
        {
            let e = &base.entries[i];
            let key = e.0.clone();
            let val = e.1.clone();
            r.insert(key, val);
            proof {
                let t = b.take(i + 1 as int);
                assert(t.drop_last() =~= b.take(i as int));
                assert(t.last() == b[i as int]);
                assert(self@.union_prefer_right(entries_model(b.take(i as int))).insert(
                    b[i as int].0@,
                    b[i as int].1.view(),
                ) =~= self@.union_prefer_right(entries_model(t)));
            }
            i += 1;
        }
        proof {
            assert(b.take(b.len() as int) =~= b);
        }
        r
    }
}

impl Clone for Value {
    /// A deep copy: the copy has the same model as the original and shares
    /// no mutable state with it.
    fn clone(&self) -> (r: Value)
        ensures
            r@ == self@,
        decreases self,
    {
        match self {
            Value::Null => Value::Null,
            Value::Bool(b) => Value::Bool(*b),
            Value::Int(i) => Value::Int(*i),
            Value::Text(s) => Value::Text(s.clone()),
            Value::List(items) => {
                let r = clone_values(items);
                proof {
                    lemma_list_model(r@);
                    lemma_list_model(items@);
                    assert forall|i: int| 0 <= i < r@.len() implies list_model(r@)[i] == list_model(
                        items@,
                    )[i] by {
                        assert(r@[i]@ == items@[i]@);
                    }
                    assert(list_model(r@) =~= list_model(items@));
                }
                Value::List(r)
            },
            Value::Object(d) => Value::Object(d.clone()),
        }
    }
}

/// Deep-copies each element of a sequence of values, keeping the order.
fn clone_values(v: &Vec<Value>) -> (r: Vec<Value>)
    ensures
        r@.len() == v@.len(),
        forall|i: int| 0 <= i < v@.len() ==> #[trigger] r@[i]@ == v@[i]@,
    decreases *v,
{
    let mut r: Vec<Value> = Vec::new();
    let mut i: usize = 0;
    while i < v.len()
        invariant
            0 <= i <= v@.len(),
            r@.len() == i,
            forall|j: int| 0 <= j < i ==> #[trigger] r@[j]@ == v@[j]@,
        decreases v@.len() - i,
    {
        r.push(v[i].clone());
        i += 1;
    }
    r
}

impl Clone for Dict {
    /// A deep copy: the copy has the same model as the original and shares
    /// no mutable state with it.
    fn clone(&self) -> (r: Dict)
        ensures
            r@ == self@,
        decreases self,
    {
        proof {
            use_type_invariant(self);
        }
        let ghost s = self.entries@;
        let mut entries: Vec<(String, Value)> = Vec::new();
        let mut i: usize = 0;
        while i < self.entries.len()
            invariant
                self.entries@ == s,
                0 <= i <= s.len(),
                entries@.len() == i,
                forall|j: int| 0 <= j < i ==> #[trigger] entries@[j].0@ == s[j].0@,
                forall|j: int| 0 <= j < i ==> #[trigger] entries@[j].1@ == s[j].1@,
                unique_keys(s),
            decreases s.len() - i,
        {
            let e = &self.entries[i];
            let key = e.0.clone();
            let val = e.1.clone();
            entries.push((key, val));
            i += 1;
        }
        proof {
            assert forall|p: int, q: int|
                0 <= p < q < entries@.len() implies entries@[p].0@ != entries@[q].0@ by {
                assert(s[p].0@ != s[q].0@);
            }
            lemma_entries_model_congruence(entries@, s);
        }
        Dict { entries }
    }
}

/// Two entry sequences with pointwise equal key and value models describe
/// the same map.
proof fn lemma_entries_model_congruence(a: Seq<(String, Value)>, b: Seq<(String, Value)>)
    requires
        a.len() == b.len(),
        forall|i: int| 0 <= i < a.len() ==> #[trigger] a[i].0@ == b[i].0@,
        forall|i: int| 0 <= i < a.len() ==> #[trigger] a[i].1@ == b[i].1@,
    ensures
        entries_model(a) == entries_model(b),
    decreases a.len(),
{
    if a.len() > 0 {
        assert forall|i: int| 0 <= i < a.drop_last().len() implies #[trigger] a.drop_last()[i].0@
            == b.drop_last()[i].0@ && a.drop_last()[i].1@ == b.drop_last()[i].1@ by {
            assert(a[i].0@ == b[i].0@);
            assert(a[i].1@ == b[i].1@);
        }
        lemma_entries_model_congruence(a.drop_last(), b.drop_last());
        assert(a.last().0@ == b.last().0@ && a.last().1@ == b.last().1@) by {
            assert(a[a.len() - 1].0@ == b[a.len() - 1].0@);
            assert(a[a.len() - 1].1@ == b[a.len() - 1].1@);
        }
    }
}

/// Under unique keys, the model's domain is finite with one key per entry.
proof fn lemma_entries_model_len(s: Seq<(String, Value)>)
    requires
        unique_keys(s),
    ensures
        entries_model(s).dom().finite(),
        entries_model(s).dom().len() == s.len(),
    decreases s.len(),
{
    broadcast use vstd::set::group_set_axioms;

    if s.len() == 0 {
        assert(entries_model(s).dom() =~= Set::<Seq<char>>::empty());
    } else {
        lemma_entries_model_len(s.drop_last());
        lemma_entries_model_dom(s.drop_last(), s.last().0@);
        if entries_model(s.drop_last()).contains_key(s.last().0@) {
            let i = choose|i: int|
                0 <= i < s.drop_last().len() && #[trigger] s.drop_last()[i].0@ == s.last().0@;
            assert(s[i].0@ == s[s.len() - 1].0@);
            assert(false);
        }
        assert(entries_model(s).dom() =~= entries_model(s.drop_last()).dom().insert(s.last().0@));
    }
}

impl Value {
    /// Whether two values have the same model: the same shape, scalars and
    /// texts, sequences elementwise, and mappings up to key order.
    pub fn deep_eq(&self, other: &Value) -> (r: bool)
        ensures
            r == (self@ == other@),
        decreases *self,
    {
        match (self, other) {
            (Value::Null, Value::Null) => true,
            (Value::Bool(a), Value::Bool(b)) => *a == *b,
            (Value::Int(a), Value::Int(b)) => *a == *b,
            (Value::Text(a), Value::Text(b)) => *a == *b,
            (Value::List(a), Value::List(b)) => values_eq(a, b),
            (Value::Object(a), Value::Object(b)) => a.deep_eq(b),
            _ => false,
        }
    }
}

/// Whether two sequences of values have the same models in the same order.
fn values_eq(a: &Vec<Value>, b: &Vec<Value>) -> (r: bool)
    ensures
        r == (list_model(a@) == list_model(b@)),
    decreases *a,
{
    proof {
        lemma_list_model(a@);
        lemma_list_model(b@);
    }
    if a.len() != b.len() {
        return false;
    }
    let mut i: usize = 0;
    while i < a.len()
        invariant
            a@.len() == b@.len(),
            0 <= i <= a@.len(),
            list_model(a@).len() == a@.len(),
            list_model(b@).len() == b@.len(),
            forall|j: int| 0 <= j < a@.len() ==> list_model(a@)[j] == #[trigger] a@[j]@,
            forall|j: int| 0 <= j < b@.len() ==> list_model(b@)[j] == #[trigger] b@[j]@,
            forall|j: int| 0 <= j < i ==> #[trigger] a@[j]@ == b@[j]@,
        decreases a@.len() - i,
    {
        proof {
            assert(decreases_to!(*a => a@));
            assert(decreases_to!(a@ => a@[i as int]));
        }
        let eq = a[i].deep_eq(&b[i]);
        if !eq {
            proof {
                assert(list_model(a@)[i as int] != list_model(b@)[i as int]);
            }
            return false;
        }
        i += 1;
    }
    proof {
        assert forall|j: int| 0 <= j < a@.len() implies list_model(a@)[j] == list_model(b@)[j] by {
            assert(a@[j]@ == b@[j]@);
        }
        assert(list_model(a@) =~= list_model(b@));
    }
    true
}

impl Dict {
    /// The number of bindings this mapping holds.
    pub fn entry_count(&self) -> (r: usize)
        ensures
            r == self@.dom().len(),
    {
        proof {
            use_type_invariant(self);
            lemma_entries_model_len(self.entries@);
        }
        self.entries.len()
    }

    /// The `i`-th binding, in an arbitrary but fixed order over the
    /// mapping's lifetime; every binding has exactly one index.
    pub fn entry_at(&self, i: usize) -> (r: (&String, &Value))
        requires
            i < self@.dom().len(),
        ensures
            self@.contains_key(r.0@) && r.1@ == self@[r.0@],
    {
        proof {
            use_type_invariant(self);
            lemma_entries_model_len(self.entries@);
            lemma_entries_model_index(self.entries@, i as int);
        }
        let e = &self.entries[i];
        (&e.0, &e.1)
    }

    /// Whether two mappings have the same model: the same keys bound to
    /// deeply equal values, in any entry order.
    pub fn deep_eq(&self, other: &Dict) -> (r: bool)
        ensures
            r == (self@ == other@),
        decreases *self,
    {
        proof {
            use_type_invariant(self);
            use_type_invariant(other);
            lemma_entries_model_len(self.entries@);
            lemma_entries_model_len(other.entries@);
        }
        let ghost s = self.entries@;
        let ghost t = other.entries@;
        if self.entries.len() != other.entries.len() {
            proof {
                assert(self@.dom().len() != other@.dom().len());
            }
            return false;
        }
        let mut i: usize = 0;
        while i < self.entries.len()
            invariant
                self.entries@ == s,
                other.entries@ == t,
                unique_keys(s),
                unique_keys(t),
                s.len() == t.len(),
                0 <= i <= s.len(),
                self@ == entries_model(s),
                other@ == entries_model(t),
                forall|j: int| 0 <= j < i ==> entries_model(t).contains_key(#[trigger] s[j].0@)
                    && entries_model(t)[s[j].0@] == s[j].1@,
            decreases s.len() - i,
        {
            proof {
                lemma_entries_model_index(s, i as int);
                assert(decreases_to!(*self => self.entries));
                assert(decreases_to!(self.entries => self.entries@));
                assert(decreases_to!(self.entries@ => self.entries@[i as int]));
                assert(decreases_to!(self.entries@[i as int] => self.entries@[i as int].1));
            }
            let e = &self.entries[i];
            match other.get(&e.0) {
                Some(w) => {
                    let eq = e.1.deep_eq(w);
                    if !eq {
                        proof {
                            assert(entries_model(s)[s[i as int].0@] == s[i as int].1@);
                            assert(entries_model(t)[s[i as int].0@] != entries_model(s)[s[i as
                                int].0@]);
                        }
                        return false;
                    }
                },
                None => {
                    proof {
                        assert(entries_model(s).contains_key(s[i as int].0@));
                        assert(!entries_model(t).contains_key(s[i as int].0@));
                    }
                    return false;
                },
            }
            i += 1;
        }
        proof {
            assert forall|k: Seq<char>| #[trigger] entries_model(s).dom().contains(k)
                implies entries_model(t).dom().contains(k) && entries_model(t)[k]
                == entries_model(s)[k] by {
                lemma_entries_model_dom(s, k);
                let j = choose|j: int| 0 <= j < s.len() && #[trigger] s[j].0@ == k;
                lemma_entries_model_index(s, j);
                assert(entries_model(t).contains_key(s[j].0@));
            }
            assert forall|k: Seq<char>| entries_model(s).dom().contains(k) implies entries_model(
                t,
            ).dom().contains(k) by {
                assert(entries_model(s).dom().contains(k));
            }
            assert(entries_model(s).dom() <= entries_model(t).dom());
            vstd::set_lib::lemma_subset_equality(entries_model(s).dom(), entries_model(t).dom());
            assert(entries_model(s) =~= entries_model(t));
        }
        true
    }
}

} // verus!
