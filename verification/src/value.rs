use vstd::prelude::*;
use vstd::string::*;

verus! {

/// Strict lexicographic order of strings by character code: the order in
/// which the keys of a table are kept.
pub open spec fn str_lt(a: Seq<char>, b: Seq<char>) -> bool
    decreases a.len(),
{
    if a.len() == 0 {
        b.len() > 0
    } else if b.len() == 0 {
        false
    } else if a[0] != b[0] {
        (a[0] as int) < (b[0] as int)
    } else {
        str_lt(a.drop_first(), b.drop_first())
    }
}

pub proof fn lemma_str_lt_irreflexive(a: Seq<char>)
    ensures
        !str_lt(a, a),
    decreases a.len(),
{
    if a.len() > 0 {
        lemma_str_lt_irreflexive(a.drop_first());
    }
}

pub proof fn lemma_str_lt_transitive(a: Seq<char>, b: Seq<char>, c: Seq<char>)
    requires
        str_lt(a, b),
        str_lt(b, c),
    ensures
        str_lt(a, c),
    decreases a.len(),
{
    if a.len() > 0 && b.len() > 0 && c.len() > 0 {
        if a[0] == b[0] && b[0] == c[0] {
            lemma_str_lt_transitive(a.drop_first(), b.drop_first(), c.drop_first());
        }
    }
}

pub proof fn lemma_str_lt_total(a: Seq<char>, b: Seq<char>)
    ensures
        a == b || str_lt(a, b) || str_lt(b, a),
        !(str_lt(a, b) && str_lt(b, a)),
    decreases a.len(),
{
    if a.len() > 0 && b.len() > 0 {
        lemma_str_lt_total(a.drop_first(), b.drop_first());
        if a[0] == b[0] {
            if a.drop_first() == b.drop_first() {
                assert(a =~= seq![a[0]] + a.drop_first());
                assert(b =~= seq![b[0]] + b.drop_first());
            }
        } else {
            assert((a[0] as int) != (b[0] as int));
        }
    } else if a.len() == 0 && b.len() == 0 {
        assert(a =~= b);
    }
}

proof fn lemma_str_lt_common_prefix(a: Seq<char>, b: Seq<char>, i: int)
    requires
        0 <= i <= a.len(),
        i <= b.len(),
        forall|j: int| 0 <= j < i ==> a[j] == b[j],
    ensures
        str_lt(a, b) == str_lt(a.skip(i), b.skip(i)),
    decreases i,
{
    if i > 0 {
        lemma_str_lt_common_prefix(a.drop_first(), b.drop_first(), i - 1);
        assert(a.drop_first().skip(i - 1) =~= a.skip(i));
        assert(b.drop_first().skip(i - 1) =~= b.skip(i));
    } else {
        assert(a.skip(0) =~= a);
        assert(b.skip(0) =~= b);
    }
}

/// Outcome of comparing two keys.
pub enum KeyOrder {
    Less,
    Equal,
    Greater,
}

/// Compares two keys in the order of `str_lt`.
pub fn compare_keys(a: &str, b: &str) -> (r: KeyOrder)
    ensures
        r is Less <==> str_lt(a@, b@),
        r is Equal <==> a@ == b@,
        r is Greater <==> str_lt(b@, a@),
{
    proof {
        lemma_str_lt_total(a@, b@);
        lemma_str_lt_irreflexive(a@);
    }
    let la = a.unicode_len();
    let lb = b.unicode_len();
    let mut i: usize = 0;
    while i < la && i < lb
        invariant
            i <= la,
            i <= lb,
            la == a@.len(),
            lb == b@.len(),
            forall|j: int| 0 <= j < i ==> a@[j] == b@[j],
        decreases la - i,
    {
        let ca = a.get_char(i);
        let cb = b.get_char(i);
        if ca != cb {
            proof {
                lemma_str_lt_common_prefix(a@, b@, i as int);
                lemma_str_lt_common_prefix(b@, a@, i as int);
                assert(a@.skip(i as int)[0] == ca);
                assert(b@.skip(i as int)[0] == cb);
            }
            if (ca as u32) < (cb as u32) {
                return KeyOrder::Less;
            } else {
                return KeyOrder::Greater;
            }
        }
        i = i + 1;
    }
    proof {
        lemma_str_lt_common_prefix(a@, b@, i as int);
        lemma_str_lt_common_prefix(b@, a@, i as int);
    }
    if la == lb {
        proof {
            assert(a@ =~= b@);
        }
        KeyOrder::Equal
    } else if la < lb {
        KeyOrder::Less
    } else {
        KeyOrder::Greater
    }
}

/// A configuration value, as the configuration files hold it.
#[derive(Debug, PartialEq)]
///
/// A float is held as the text that Rust prints for it, and a datetime as
/// the text of its TOML form.
pub enum TomlValue {
    String(String),
    Integer(i64),
    Float(String),
    Boolean(bool),
    Datetime(String),
    Array(Vec<TomlValue>),
    Table(TomlTable),
}

/// A table of configuration values, its keys in ascending order.
#[derive(Debug, PartialEq)]
pub struct TomlTable {
    entries: Vec<(String, TomlValue)>,
}

/// The mathematical form of a configuration value.
pub enum TomlView {
    String(Seq<char>),
    Integer(i64),
    Float(Seq<char>),
    Boolean(bool),
    Datetime(Seq<char>),
    Array(Seq<TomlView>),
    Table(Seq<(Seq<char>, TomlView)>),
}

pub open spec fn value_view(v: TomlValue) -> TomlView
    decreases v,
{
    match v {
        TomlValue::String(s) => TomlView::String(s@),
        TomlValue::Integer(i) => TomlView::Integer(i),
        TomlValue::Float(f) => TomlView::Float(f@),
        TomlValue::Boolean(b) => TomlView::Boolean(b),
        TomlValue::Datetime(d) => TomlView::Datetime(d@),
        TomlValue::Array(a) => TomlView::Array(values_view(a@)),
        TomlValue::Table(t) => TomlView::Table(t.table_view()),
    }
}

pub open spec fn values_view(s: Seq<TomlValue>) -> Seq<TomlView>
    decreases s,
{
    if s.len() == 0 {
        Seq::empty()
    } else {
        seq![value_view(s[0])] + values_view(s.drop_first())
    }
}

pub open spec fn entries_view(s: Seq<(String, TomlValue)>) -> Seq<(Seq<char>, TomlView)>
    decreases s,
{
    if s.len() == 0 {
        Seq::empty()
    } else {
        seq![(s[0].0@, value_view(s[0].1))] + entries_view(s.drop_first())
    }
}

impl TomlTable {
    #[verifier::type_invariant]
    closed spec fn keys_in_order(self) -> bool {
        forall|i: int, j: int|
            0 <= i < j < self.entries@.len() ==> str_lt(
                #[trigger] self.entries@[i].0@,
                #[trigger] self.entries@[j].0@,
            )
    }

    pub closed spec fn table_view(self) -> Seq<(Seq<char>, TomlView)>
        decreases self,
    {
        entries_view(self.entries@)
    }
}


/// The value stored under `k` in a table view (the first entry with that
/// key; keys are distinct in a table).
pub open spec fn view_get(t: Seq<(Seq<char>, TomlView)>, k: Seq<char>) -> Option<TomlView>
    decreases t.len(),
{
    if t.len() == 0 {
        None
    } else if t[0].0 == k {
        Some(t[0].1)
    } else {
        view_get(t.drop_first(), k)
    }
}

/// The keys of a table view are in strictly ascending order.
pub open spec fn keys_sorted(t: Seq<(Seq<char>, TomlView)>) -> bool {
    forall|i: int, j: int| 0 <= i < j < t.len() ==> str_lt(#[trigger] t[i].0, #[trigger] t[j].0)
}

/// The keys of a table view.
pub open spec fn view_keys(t: Seq<(Seq<char>, TomlView)>) -> Seq<Seq<char>> {
    t.map_values(|e: (Seq<char>, TomlView)| e.0)
}

pub proof fn lemma_entries_view(s: Seq<(String, TomlValue)>)
    ensures
        entries_view(s).len() == s.len(),
        forall|i: int|
            0 <= i < s.len() ==> #[trigger] entries_view(s)[i] == (s[i].0@, value_view(s[i].1)),
    decreases s.len(),
{
    if s.len() > 0 {
        lemma_entries_view(s.drop_first());
        assert forall|i: int| 0 <= i < s.len() implies #[trigger] entries_view(s)[i] == (
            s[i].0@,
            value_view(s[i].1),
        ) by {
            if i > 0 {
                assert(entries_view(s)[i] == entries_view(s.drop_first())[i - 1]);
            }
        }
    }
}

pub proof fn lemma_values_view(s: Seq<TomlValue>)
    ensures
        values_view(s).len() == s.len(),
        forall|i: int| 0 <= i < s.len() ==> #[trigger] values_view(s)[i] == value_view(s[i]),
    decreases s.len(),
{
    if s.len() > 0 {
        lemma_values_view(s.drop_first());
        assert forall|i: int| 0 <= i < s.len() implies #[trigger] values_view(s)[i] == value_view(
            s[i],
        ) by {
            if i > 0 {
                assert(values_view(s)[i] == values_view(s.drop_first())[i - 1]);
            }
        }
    }
}

/// In a table with distinct keys, the entry at index `i` is what the table
/// holds under its key.
pub proof fn lemma_view_get_at(t: Seq<(Seq<char>, TomlView)>, i: int)
    requires
        keys_sorted(t),
        0 <= i < t.len(),
    ensures
        view_get(t, t[i].0) == Some(t[i].1),
    decreases i,
{
    if i > 0 {
        lemma_str_lt_irreflexive(t[0].0);
        assert(str_lt(t[0].0, t[i].0));
        assert(t[0].0 != t[i].0);
        let r = t.drop_first();
        assert(keys_sorted(r)) by {
            assert forall|a: int, b: int| 0 <= a < b < r.len() implies str_lt(
                #[trigger] r[a].0,
                #[trigger] r[b].0,
            ) by {
                assert(r[a] == t[a + 1]);
                assert(r[b] == t[b + 1]);
            }
        }
        lemma_view_get_at(r, i - 1);
        assert(r[i - 1] == t[i]);
    }
}

/// A table holds something under `k` exactly when one of its entries has
/// that key.
pub proof fn lemma_view_get_some(t: Seq<(Seq<char>, TomlView)>, k: Seq<char>)
    ensures
        view_get(t, k) is Some <==> exists|i: int| 0 <= i < t.len() && #[trigger] t[i].0 == k,
        view_get(t, k) matches Some(v) ==> exists|i: int|
            0 <= i < t.len() && #[trigger] t[i].0 == k && t[i].1 == v,
    decreases t.len(),
{
    if t.len() > 0 {
        let r = t.drop_first();
        lemma_view_get_some(r, k);
        if t[0].0 != k {
            if exists|i: int| 0 <= i < t.len() && #[trigger] t[i].0 == k {
                let i = choose|i: int| 0 <= i < t.len() && #[trigger] t[i].0 == k;
                assert(r[i - 1].0 == k);
            }
            if view_get(t, k) is Some {
                let i = choose|i: int| 0 <= i < r.len() && #[trigger] r[i].0 == k && r[i].1 == view_get(t, k)->0;
                assert(t[i + 1] == r[i]);
            }
        }
    }
}

impl TomlTable {
    /// The entries of the table, in key order.
    pub open spec fn view_entries(self) -> Seq<(Seq<char>, TomlView)> {
        self.table_view()
    }

    /// An empty table.
    pub fn new() -> (res: TomlTable)
        ensures
            res.view_entries() == Seq::<(Seq<char>, TomlView)>::empty(),
    {
        TomlTable { entries: Vec::new() }
    }

    /// Number of entries.
    pub fn len(&self) -> (res: usize)
        ensures
            res == self.view_entries().len(),
    {
        proof {
            lemma_entries_view(self.entries@);
        }
        self.entries.len()
    }

    /// Whether the table has no entries.
    pub fn is_empty(&self) -> (res: bool)
        ensures
            res == (self.view_entries().len() == 0),
    {
        proof {
            lemma_entries_view(self.entries@);
        }
        self.entries.len() == 0
    }

    /// The entries of the table, in key order.
    pub fn entries(&self) -> (res: &Vec<(String, TomlValue)>)
        ensures
            entries_view(res@) == self.view_entries(),
            keys_sorted(self.view_entries()),
    {
        proof {
            use_type_invariant(self);
            self.lemma_sorted();
        }
        &self.entries
    }

    /// The table holding `entries`, whose keys come in strictly ascending
    /// order.
    pub fn from_sorted_entries(entries: Vec<(String, TomlValue)>) -> (res: TomlTable)
        requires
            forall|i: int, j: int|
                0 <= i < j < entries@.len() ==> str_lt(
                    #[trigger] entries@[i].0@,
                    #[trigger] entries@[j].0@,
                ),
        ensures
            res.view_entries() == entries_view(entries@),
    {
        TomlTable { entries }
    }

    /// Takes the entries out of the table, in key order.
    pub fn into_entries(self) -> (res: Vec<(String, TomlValue)>)
        ensures
            entries_view(res@) == self.view_entries(),
            keys_sorted(self.view_entries()),
    {
        proof {
            use_type_invariant(&self);
            self.lemma_sorted();
        }
        self.entries
    }

    proof fn lemma_sorted(self)
        requires
            self.keys_in_order(),
        ensures
            keys_sorted(self.view_entries()),
    {
        lemma_entries_view(self.entries@);
        let t = self.view_entries();
        assert forall|i: int, j: int| 0 <= i < j < t.len() implies str_lt(
            #[trigger] t[i].0,
            #[trigger] t[j].0,
        ) by {
            assert(t[i].0 == self.entries@[i].0@);
            assert(t[j].0 == self.entries@[j].0@);
        }
    }

    /// Index of the first entry whose key is not below `key`.
    fn position(&self, key: &str) -> (res: (usize, bool))
        ensures
            res.0 <= self.entries@.len(),
            forall|j: int| 0 <= j < res.0 ==> str_lt(#[trigger] self.entries@[j].0@, key@),
            res.0 < self.entries@.len() ==> !str_lt(self.entries@[res.0 as int].0@, key@),
            res.1 == (res.0 < self.entries@.len() && self.entries@[res.0 as int].0@ == key@),
    {
        let mut i: usize = 0;
        let n = self.entries.len();
        while i < n
            invariant
                i <= n,
                n == self.entries@.len(),
                forall|j: int| 0 <= j < i ==> str_lt(#[trigger] self.entries@[j].0@, key@),
            decreases n - i,
        {
            match compare_keys(self.entries[i].0.as_str(), key) {
                KeyOrder::Less => {},
                KeyOrder::Equal => {
                    return (i, true);
                },
                KeyOrder::Greater => {
                    proof {
                        lemma_str_lt_total(self.entries@[i as int].0@, key@);
                    }
                    return (i, false);
                },
            }
            i = i + 1;
        }
        (i, false)
    }

    /// The value stored under `key`.
    pub fn get(&self, key: &str) -> (res: Option<&TomlValue>)
        ensures
            match res {
                Some(v) => view_get(self.view_entries(), key@) == Some(value_view(*v)),
                None => view_get(self.view_entries(), key@) is None,
            },
    {
        proof {
            use_type_invariant(self);
            self.lemma_sorted();
            lemma_entries_view(self.entries@);
            lemma_view_get_some(self.view_entries(), key@);
        }
        let (p, found) = self.position(key);
        if found {
            proof {
                lemma_view_get_at(self.view_entries(), p as int);
            }
            Some(&self.entries[p].1)
        } else {
            proof {
                let t = self.view_entries();
                assert forall|i: int| 0 <= i < t.len() implies #[trigger] t[i].0 != key@ by {
                    lemma_str_lt_irreflexive(key@);
                    if i >= p && p < t.len() {
                        lemma_str_lt_total(t[p as int].0, key@);
                        if i > p {
                            lemma_str_lt_transitive(key@, t[p as int].0, t[i].0);
                        }
                    }
                }
            }
            None
        }
    }

    /// Stores `value` under `key`, and gives back what was stored there.
    pub fn insert(&mut self, key: String, value: TomlValue) -> (res: Option<TomlValue>)
        ensures
            keys_sorted(final(self).view_entries()),
            forall|k: Seq<char>|
                #[trigger] view_get(final(self).view_entries(), k) == if k == key@ {
                    Some(value_view(value))
                } else {
                    view_get(old(self).view_entries(), k)
                },
            match res {
                Some(o) => view_get(old(self).view_entries(), key@) == Some(value_view(o)),
                None => view_get(old(self).view_entries(), key@) is None,
            },
    {
        proof {
            use_type_invariant(&*self);
            self.lemma_sorted();
            lemma_entries_view(self.entries@);
            lemma_view_get_some(self.view_entries(), key@);
        }
        let ghost old_t = self.view_entries();
        let (p, found) = self.position(key.as_str());
        let mut e: Vec<(String, TomlValue)> = Vec::new();
        std::mem::swap(&mut e, &mut self.entries);
        let ghost old_e = e@;
        let res = if found {
            let (_, prev) = e.remove(p);
            e.insert(p, (key, value));
            proof {
                lemma_view_get_at(old_t, p as int);
            }
            Some(prev)
        } else {
            e.insert(p, (key, value));
            proof {
                assert forall|i: int| 0 <= i < old_t.len() implies #[trigger] old_t[i].0 != key@ by {
                    lemma_str_lt_irreflexive(key@);
                    if i >= p && p < old_t.len() {
                        lemma_str_lt_total(old_t[p as int].0, key@);
                        if i > p {
                            lemma_str_lt_transitive(key@, old_t[p as int].0, old_t[i].0);
                        }
                    }
                }
            }
            None
        };
        proof {
            assert forall|i: int, j: int| 0 <= i < j < e@.len() implies str_lt(
                #[trigger] e@[i].0@,
                #[trigger] e@[j].0@,
            ) by {
                if p < old_e.len() && !found {
                    lemma_str_lt_total(old_e[p as int].0@, key@);
                }
                if found {
                    assert(e@[i].0@ == old_e[i].0@);
                    assert(e@[j].0@ == old_e[j].0@);
                } else {
                    if j < p {
                        assert(e@[i] == old_e[i]);
                        assert(e@[j] == old_e[j]);
                    } else if j == p {
                        assert(e@[i] == old_e[i]);
                    } else if i == p {
                        assert(e@[j] == old_e[j - 1]);
                        if j - 1 > p {
                            lemma_str_lt_transitive(key@, old_e[p as int].0@, old_e[j - 1].0@);
                        }
                    } else if i < p {
                        assert(e@[i] == old_e[i]);
                        assert(e@[j] == old_e[j - 1]);
                    } else {
                        assert(e@[i] == old_e[i - 1]);
                        assert(e@[j] == old_e[j - 1]);
                    }
                }
            }
        }
        self.entries = e;
        proof {
            use_type_invariant(&*self);
            self.lemma_sorted();
            lemma_entries_view(self.entries@);
            let t = self.view_entries();
            assert forall|k: Seq<char>| #[trigger] view_get(t, k) == if k == key@ {
                Some(value_view(value))
            } else {
                view_get(old_t, k)
            } by {
                lemma_view_get_some(t, k);
                lemma_view_get_some(old_t, k);
                if k == key@ {
                    lemma_view_get_at(t, p as int);
                } else {
                    if view_get(old_t, k) is Some {
                        let i = choose|i: int| 0 <= i < old_t.len() && #[trigger] old_t[i].0 == k;
                        let ni = if found || i < p { i } else { i + 1 };
                        assert(t[ni] == old_t[i]);
                        lemma_view_get_at(t, ni);
                        lemma_view_get_at(old_t, i);
                    } else {
                        assert forall|i: int| 0 <= i < t.len() implies #[trigger] t[i].0 != k by {
                            if i != p {
                                let oi = if found || i < p { i } else { i - 1 };
                                assert(t[i] == old_t[oi]);
                            }
                        }
                    }
                }
            }
        }
        res
    }

    /// Removes what is stored under `key`, and gives it back.
    pub fn remove(&mut self, key: &str) -> (res: Option<TomlValue>)
        ensures
            keys_sorted(final(self).view_entries()),
            forall|k: Seq<char>|
                #[trigger] view_get(final(self).view_entries(), k) == if k == key@ {
                    None
                } else {
                    view_get(old(self).view_entries(), k)
                },
            match res {
                Some(o) => view_get(old(self).view_entries(), key@) == Some(value_view(o)),
                None => view_get(old(self).view_entries(), key@) is None,
            },
    {
        proof {
            use_type_invariant(&*self);
            self.lemma_sorted();
            lemma_entries_view(self.entries@);
            lemma_view_get_some(self.view_entries(), key@);
        }
        let ghost old_t = self.view_entries();
        let (p, found) = self.position(key);
        if !found {
            proof {
                assert forall|i: int| 0 <= i < old_t.len() implies #[trigger] old_t[i].0 != key@ by {
                    lemma_str_lt_irreflexive(key@);
                    if i >= p && p < old_t.len() {
                        lemma_str_lt_total(old_t[p as int].0, key@);
                        if i > p {
                            lemma_str_lt_transitive(key@, old_t[p as int].0, old_t[i].0);
                        }
                    }
                }
                assert forall|k: Seq<char>| #[trigger] view_get(old_t, k) == if k == key@ {
                    None
                } else {
                    view_get(old_t, k)
                } by {
                    if k == key@ {
                        lemma_view_get_some(old_t, k);
                    }
                }
            }
            return None;
        }
        let mut e: Vec<(String, TomlValue)> = Vec::new();
        std::mem::swap(&mut e, &mut self.entries);
        let ghost old_e = e@;
        let (_, prev) = e.remove(p);
        proof {
            lemma_view_get_at(old_t, p as int);
            assert forall|i: int, j: int| 0 <= i < j < e@.len() implies str_lt(
                #[trigger] e@[i].0@,
                #[trigger] e@[j].0@,
            ) by {
                let oi = if i < p { i } else { i + 1 };
                let oj = if j < p { j } else { j + 1 };
                assert(e@[i] == old_e[oi]);
                assert(e@[j] == old_e[oj]);
            }
        }
        self.entries = e;
        proof {
            use_type_invariant(&*self);
            self.lemma_sorted();
            lemma_entries_view(self.entries@);
            let t = self.view_entries();
            assert forall|k: Seq<char>| #[trigger] view_get(t, k) == if k == key@ {
                None
            } else {
                view_get(old_t, k)
            } by {
                lemma_view_get_some(t, k);
                lemma_view_get_some(old_t, k);
                if k == key@ {
                    assert forall|i: int| 0 <= i < t.len() implies #[trigger] t[i].0 != k by {
                        let oi = if i < p { i } else { i + 1 };
                        assert(t[i] == old_t[oi]);
                        lemma_str_lt_irreflexive(k);
                    }
                } else {
                    if view_get(old_t, k) is Some {
                        let i = choose|i: int| 0 <= i < old_t.len() && #[trigger] old_t[i].0 == k;
                        let ni = if i < p { i } else { i - 1 };
                        assert(t[ni] == old_t[i]);
                        lemma_view_get_at(t, ni);
                        lemma_view_get_at(old_t, i);
                    } else {
                        assert forall|i: int| 0 <= i < t.len() implies #[trigger] t[i].0 != k by {
                            let oi = if i < p { i } else { i + 1 };
                            assert(t[i] == old_t[oi]);
                        }
                    }
                }
            }
        }
        Some(prev)
    }
}


/// `res` is what merging the table `other` into the table `base` gives:
/// every key of `other` that holds a table, where `base` holds a table under
/// the same key, holds the two merged in turn; any other key of `other`
/// holds its value from `other`; and the keys that `other` lacks hold what
/// `base` holds.
pub open spec fn is_merge(
    base: Seq<(Seq<char>, TomlView)>,
    other: Seq<(Seq<char>, TomlView)>,
    res: Seq<(Seq<char>, TomlView)>,
) -> bool
    decreases other,
{
    &&& forall|k: Seq<char>|
        #[trigger] view_get(other, k) is None ==> view_get(res, k) == view_get(base, k)
    &&& forall|i: int|
        0 <= i < other.len() ==> match #[trigger] other[i].1 {
            TomlView::Table(t) => match view_get(base, other[i].0) {
                Some(TomlView::Table(b)) => match view_get(res, other[i].0) {
                    Some(TomlView::Table(r)) => is_merge(b, t, r),
                    _ => false,
                },
                _ => view_get(res, other[i].0) == Some(TomlView::Table(t)),
            },
            v => view_get(res, other[i].0) == Some(v),
        }
}

impl TomlValue {
    /// A copy of the value.
    pub fn duplicate(&self) -> (res: TomlValue)
        ensures
            value_view(res) == value_view(*self),
        decreases self,
    {
        match self {
            TomlValue::String(s) => TomlValue::String(s.clone()),
            TomlValue::Integer(i) => TomlValue::Integer(*i),
            TomlValue::Float(f) => TomlValue::Float(f.clone()),
            TomlValue::Boolean(b) => TomlValue::Boolean(*b),
            TomlValue::Datetime(d) => TomlValue::Datetime(d.clone()),
            TomlValue::Array(a) => {
                let mut out: Vec<TomlValue> = Vec::new();
                let mut i: usize = 0;
                while i < a.len()
                    invariant
                        *self == TomlValue::Array(*a),
                        i <= a@.len(),
                        out@.len() == i,
                        forall|j: int| 0 <= j < i ==> value_view(#[trigger] out@[j]) == value_view(a@[j]),
                    decreases a@.len() - i,
                {
                    proof {
                        assert(*self == TomlValue::Array(*a));
                        assert(decreases_to!(*self => (*self)->Array_0));
                        assert(decreases_to!((*self)->Array_0 => (*self)->Array_0@[i as int]));
                    }
                    let c = a[i].duplicate();
                    out.push(c);
                    i = i + 1;
                }
                proof {
                    lemma_values_view(out@);
                    lemma_values_view(a@);
                    assert(values_view(out@) =~= values_view(a@));
                }
                TomlValue::Array(out)
            },
            TomlValue::Table(t) => {
                proof {
                    assert(decreases_to!(*self => *t));
                }
                TomlValue::Table(t.duplicate())
            },
        }
    }
}

impl TomlTable {
    /// A copy of the table.
    pub fn duplicate(&self) -> (res: TomlTable)
        ensures
            res.view_entries() == self.view_entries(),
        decreases self,
    {
        proof {
            use_type_invariant(self);
        }
        let mut out: Vec<(String, TomlValue)> = Vec::new();
        let mut i: usize = 0;
        while i < self.entries.len()
            invariant
                i <= self.entries@.len(),
                out@.len() == i,
                forall|j: int|
                    0 <= j < i ==> (#[trigger] out@[j]).0@ == self.entries@[j].0@ && value_view(
                        out@[j].1,
                    ) == value_view(self.entries@[j].1),
            decreases self.entries@.len() - i,
        {
            proof {
                assert(decreases_to!(*self => self.entries));
                assert(decreases_to!(self.entries => self.entries@));
                assert(decreases_to!(self.entries@ => self.entries@[i as int]));
                assert(decreases_to!(self.entries@[i as int] => self.entries@[i as int].1));
            }
            let k = self.entries[i].0.clone();
            let v = self.entries[i].1.duplicate();
            out.push((k, v));
            i = i + 1;
        }
        proof {
            lemma_entries_view(out@);
            lemma_entries_view(self.entries@);
            assert(entries_view(out@) =~= entries_view(self.entries@));
            assert forall|a: int, b: int| 0 <= a < b < out@.len() implies str_lt(
                #[trigger] out@[a].0@,
                #[trigger] out@[b].0@,
            ) by {
                assert(out@[a].0@ == self.entries@[a].0@);
                assert(out@[b].0@ == self.entries@[b].0@);
            }
        }
        TomlTable { entries: out }
    }

    /// Merges the table `other` into this one: nested tables are merged key
    /// by key, and any other value of `other` replaces the one held here.
    pub fn merge_from(&mut self, other: TomlTable)
        ensures
            is_merge(old(self).view_entries(), other.view_entries(), final(self).view_entries()),
            keys_sorted(final(self).view_entries()),
        decreases other,
    {
        proof {
            use_type_invariant(&other);
            other.lemma_sorted();
            lemma_entries_view(other.entries@);
            use_type_invariant(&*self);
            self.lemma_sorted();
        }
        let ghost base = self.view_entries();
        let ghost ot = other.view_entries();
        let ghost oe = other.entries@;
        let ghost whole = other;
        let mut rest = other.entries;
        proof {
            assert(oe.take(oe.len() as int) =~= oe);
            assert forall|k: Seq<char>| #[trigger] view_get(ot.skip(ot.len() as int), k) is None by {
                assert(ot.skip(ot.len() as int).len() == 0);
            }
        }
        while rest.len() > 0
            invariant
                whole == other,
                oe == other.entries@,
                ot == entries_view(oe),
                ot == other.view_entries(),
                ot.len() == oe.len(),
                forall|i: int| 0 <= i < oe.len() ==> #[trigger] ot[i] == (oe[i].0@, value_view(oe[i].1)),
                keys_sorted(ot),
                rest@ == oe.take(rest@.len() as int),
                rest@.len() <= oe.len(),
                keys_sorted(self.view_entries()),
                is_merge(base, ot.skip(rest@.len() as int), self.view_entries()),
            decreases rest@.len(),
        {
            let ghost before = self.view_entries();
            let ghost done = ot.skip(rest@.len() as int);
            let (k, v) = rest.pop().unwrap();
            let ghost n = rest@.len() as int;
            let ghost now = ot.skip(n);
            proof {
                assert(oe[n] == (k, v));
                assert(ot[n] == (k@, value_view(v)));
                assert(now[0] == ot[n]);
                assert(now.drop_first() =~= done);
                assert forall|j: int| 0 <= j < done.len() implies #[trigger] done[j].0 != k@ by {
                    assert(done[j] == ot[n + 1 + j]);
                    assert(str_lt(ot[n].0, ot[n + 1 + j].0));
                    lemma_str_lt_irreflexive(k@);
                }
                lemma_view_get_some(done, k@);
                assert(view_get(done, k@) is None);
                assert(view_get(before, k@) == view_get(base, k@));
            }
            let ghost vv = value_view(v);
            match v {
                TomlValue::Table(t) => {
                    let current = self.remove(k.as_str());
                    match current {
                        Some(TomlValue::Table(mut ext)) => {
                            proof {
                                assert(decreases_to!(whole => whole.entries));
                                assert(decreases_to!(whole.entries => whole.entries@));
                                assert(decreases_to!(whole.entries@ => whole.entries@[n]));
                                assert(decreases_to!(whole.entries@[n] => whole.entries@[n].1));
                                assert(whole.entries@[n].1 == TomlValue::Table(t));
                            }
                            ext.merge_from(t);
                            self.insert(k, TomlValue::Table(ext));
                        },
                        _ => {
                            self.insert(k, TomlValue::Table(t));
                        },
                    }
                },
                other_value => {
                    self.insert(k, other_value);
                },
            }
            proof {
                let after = self.view_entries();
                assert forall|key: Seq<char>| #[trigger] view_get(now, key) is None implies view_get(
                    after,
                    key,
                ) == view_get(base, key) by {
                    lemma_view_get_some(now, key);
                    lemma_view_get_some(done, key);
                    if key == k@ {
                        assert(now[0].0 == k@);
                    } else {
                        if view_get(done, key) is Some {
                            let j = choose|j: int| 0 <= j < done.len() && #[trigger] done[j].0 == key;
                            assert(now[j + 1] == done[j]);
                        }
                    }
                }
                assert forall|i: int| 0 <= i < now.len() implies match #[trigger] now[i].1 {
                    TomlView::Table(t) => match view_get(base, now[i].0) {
                        Some(TomlView::Table(b)) => match view_get(after, now[i].0) {
                            Some(TomlView::Table(r)) => is_merge(b, t, r),
                            _ => false,
                        },
                        _ => view_get(after, now[i].0) == Some(TomlView::Table(t)),
                    },
                    v => view_get(after, now[i].0) == Some(v),
                } by {
                    if i > 0 {
                        assert(now[i] == done[i - 1]);
                        assert(done[i - 1].0 != k@);
                        let x = done[i - 1].1;
                    }
                }
            }
        }
        proof {
            assert(ot.skip(0) =~= ot);
        }
    }
}


/// What a table holds under `k` once every entry of `top` has been stored
/// into `base`.
pub open spec fn overlay_get(
    base: Seq<(Seq<char>, TomlView)>,
    top: Seq<(Seq<char>, TomlView)>,
    k: Seq<char>,
) -> Option<TomlView> {
    match view_get(top, k) {
        Some(v) => Some(v),
        None => view_get(base, k),
    }
}

impl TomlTable {
    /// Stores every entry of `other` into this table (`Extend`).
    pub fn extend(&mut self, other: TomlTable)
        ensures
            keys_sorted(final(self).view_entries()),
            forall|k: Seq<char>|
                #[trigger] view_get(final(self).view_entries(), k) == overlay_get(
                    old(self).view_entries(),
                    other.view_entries(),
                    k,
                ),
    {
        proof {
            use_type_invariant(&*self);
            self.lemma_sorted();
        }
        let ghost base = self.view_entries();
        let ghost ot = other.view_entries();
        let mut rest = other.into_entries();
        let ghost oe = rest@;
        proof {
            lemma_entries_view(oe);
            assert(oe.take(oe.len() as int) =~= oe);
            assert forall|k: Seq<char>| #[trigger] view_get(self.view_entries(), k) == overlay_get(
                base,
                ot.skip(ot.len() as int),
                k,
            ) by {
                assert(ot.skip(ot.len() as int).len() == 0);
            }
        }
        while rest.len() > 0
            invariant
                ot == entries_view(oe),
                ot.len() == oe.len(),
                forall|i: int| 0 <= i < oe.len() ==> #[trigger] ot[i] == (oe[i].0@, value_view(oe[i].1)),
                keys_sorted(ot),
                rest@ == oe.take(rest@.len() as int),
                rest@.len() <= oe.len(),
                keys_sorted(self.view_entries()),
                forall|k: Seq<char>|
                    #[trigger] view_get(self.view_entries(), k) == overlay_get(
                        base,
                        ot.skip(rest@.len() as int),
                        k,
                    ),
            decreases rest@.len(),
        {
            let ghost done = ot.skip(rest@.len() as int);
            let ghost before = self.view_entries();
            let (k, v) = rest.pop().unwrap();
            let ghost n = rest@.len() as int;
            let ghost now = ot.skip(n);
            proof {
                assert(oe[n] == (k, v));
                assert(now[0] == ot[n]);
                assert(now.drop_first() =~= done);
            }
            self.insert(k, v);
            proof {
                assert forall|key: Seq<char>| #[trigger] view_get(self.view_entries(), key)
                    == overlay_get(base, now, key) by {
                    if key != k@ {
                        lemma_view_get_some(now, key);
                        lemma_view_get_some(done, key);
                        if view_get(done, key) is Some {
                            let j = choose|j: int| 0 <= j < done.len() && #[trigger] done[j].0 == key;
                            assert(now[j + 1] == done[j]);
                            lemma_view_get_at(done, j);
                            assert(keys_sorted(now)) by {
                                assert forall|a: int, b: int| 0 <= a < b < now.len() implies str_lt(
                                    #[trigger] now[a].0,
                                    #[trigger] now[b].0,
                                ) by {
                                    assert(now[a] == ot[n + a]);
                                    assert(now[b] == ot[n + b]);
                                }
                            }
                            lemma_view_get_at(now, j + 1);
                        } else {
                            if view_get(now, key) is Some {
                                let j = choose|j: int| 0 <= j < now.len() && #[trigger] now[j].0 == key;
                                if j > 0 {
                                    assert(done[j - 1] == now[j]);
                                }
                            }
                        }
                    } else {
                        assert(view_get(now, key) == Some(value_view(v)));
                    }
                }
            }
        }
        proof {
            assert(ot.skip(0) =~= ot);
        }
    }
}


/// Copies of the values of a list.
pub fn duplicate_values(values: &Vec<TomlValue>) -> (res: Vec<TomlValue>)
    ensures
        values_view(res@) == values_view(values@),
{
    let mut out: Vec<TomlValue> = Vec::new();
    let mut i: usize = 0;
    while i < values.len()
        invariant
            i <= values@.len(),
            out@.len() == i,
            forall|j: int| 0 <= j < i ==> value_view(#[trigger] out@[j]) == value_view(values@[j]),
        decreases values@.len() - i,
    {
        out.push(values[i].duplicate());
        i = i + 1;
    }
    proof {
        lemma_values_view(out@);
        lemma_values_view(values@);
        assert(values_view(out@) =~= values_view(values@));
    }
    out
}

} // verus!
