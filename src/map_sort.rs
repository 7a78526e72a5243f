//! The map container sort: maps from values to values, interned in a per-sort table.
use vstd::prelude::*;
use crate::ast::{Expr, ExprV, exprs_view, lemma_call_view};

verus! {

/// A value: the interned id of its sort and a payload (an e-class id for eq-sorts, an
/// index into the sort's table for containers, raw bits for primitives).
#[derive(PartialEq, Eq, Structural, Clone, Copy, Debug)]
pub struct Value {
    pub tag: u64,
    pub bits: u64,
}

/// Sort id carried by the unit value.
pub const UNIT_TAG: u64 = 0;

impl Value {
    pub fn unit() -> (r: Value)
        ensures
            r == (Value { tag: UNIT_TAG, bits: 0 }),
    {
        Value { tag: UNIT_TAG, bits: 0 }
    }
}

/// Order on values: by sort id, then by payload.
pub open spec fn value_lt(a: Value, b: Value) -> bool {
    a.tag < b.tag || (a.tag == b.tag && a.bits < b.bits)
}

pub fn value_less(a: &Value, b: &Value) -> (r: bool)
    ensures
        r == value_lt(*a, *b),
{
    a.tag < b.tag || (a.tag == b.tag && a.bits < b.bits)
}

/// Keys strictly increase along the entries.
pub open spec fn sorted_keys(s: Seq<(Value, Value)>) -> bool {
    forall|i: int, j: int| 0 <= i < j < s.len() ==> value_lt(#[trigger] s[i].0, #[trigger] s[j].0)
}

/// The map that a sequence of entries denotes.
pub open spec fn entries_map(s: Seq<(Value, Value)>) -> Map<Value, Value>
    decreases s.len(),
{
    if s.len() == 0 {
        Map::empty()
    } else {
        entries_map(s.drop_last()).insert(s.last().0, s.last().1)
    }
}

pub open spec fn has_key(s: Seq<(Value, Value)>, k: Value) -> bool {
    exists|i: int| 0 <= i < s.len() && (#[trigger] s[i]).0 == k
}

proof fn lemma_entries_map(s: Seq<(Value, Value)>)
    requires
        sorted_keys(s),
    ensures
        forall|k: Value| #[trigger] entries_map(s).contains_key(k) == has_key(s, k),
        forall|i: int| 0 <= i < s.len() ==> entries_map(s)[(#[trigger] s[i]).0] == s[i].1,
    decreases s.len(),
{
    if s.len() > 0 {
        let p = s.drop_last();
        assert(sorted_keys(p)) by {
            assert forall|i: int, j: int| 0 <= i < j < p.len() implies value_lt(
                #[trigger] p[i].0,
                #[trigger] p[j].0,
            ) by {
                assert(p[i] == s[i] && p[j] == s[j]);
            }
        }
        lemma_entries_map(p);
        assert forall|k: Value| #[trigger] entries_map(s).contains_key(k) == has_key(s, k) by {
            if has_key(s, k) {
                let i = choose|i: int| 0 <= i < s.len() && (#[trigger] s[i]).0 == k;
                if i < p.len() {
                    assert(p[i] == s[i]);
                    assert(has_key(p, k));
                    assert(entries_map(p).contains_key(k));
                }
            }
            if entries_map(s).contains_key(k) {
                if k != s.last().0 {
                    assert(entries_map(p).contains_key(k));
                    assert(has_key(p, k));
                    let i = choose|i: int| 0 <= i < p.len() && (#[trigger] p[i]).0 == k;
                    assert(s[i] == p[i]);
                    assert(has_key(s, k));
                } else {
                    assert(s[s.len() - 1].0 == k);
                    assert(has_key(s, k));
                }
            }
        }
        assert forall|i: int| 0 <= i < s.len() implies entries_map(s)[(#[trigger] s[i]).0]
            == s[i].1 by {
            if i < p.len() {
                assert(p[i] == s[i]);
                assert(value_lt(s[i].0, s[s.len() - 1].0));
            }
        }
    }
}

/// A map from values to values, kept as entries sorted by key.
#[derive(Debug, PartialEq)]
pub struct ValueMap {
    pub entries: Vec<(Value, Value)>,
}

impl View for ValueMap {
    type V = Map<Value, Value>;

    open spec fn view(&self) -> Map<Value, Value> {
        entries_map(self.entries@)
    }
}

impl ValueMap {
    pub open spec fn wf(&self) -> bool {
        sorted_keys(self.entries@)
    }

    pub fn new() -> (r: ValueMap)
        ensures
            r.wf(),
            r@ == Map::<Value, Value>::empty(),
            r.entries@.len() == 0,
    {
        ValueMap { entries: Vec::new() }
    }

    pub fn copy(&self) -> (r: ValueMap)
        ensures
            r.entries@ == self.entries@,
    {
        let mut entries: Vec<(Value, Value)> = Vec::new();
        let mut i: usize = 0;
        while i < self.entries.len()
            invariant
                i <= self.entries.len(),
                entries@ == self.entries@.subrange(0, i as int),
            decreases self.entries.len() - i,
        {
            entries.push(self.entries[i]);
            proof {
                assert(self.entries@.subrange(0, i + 1) =~= self.entries@.subrange(0, i as int).push(
                    self.entries@[i as int],
                ));
            }
            i += 1;
        }
        assert(self.entries@.subrange(0, i as int) =~= self.entries@);
        ValueMap { entries }
    }

    /// Index of the first entry whose key is not below `k`.
    fn lower_bound(&self, k: &Value) -> (p: usize)
        requires
            self.wf(),
        ensures
            p <= self.entries@.len(),
            forall|i: int| 0 <= i < p ==> value_lt(#[trigger] self.entries@[i].0, *k),
            forall|i: int| p <= i < self.entries@.len() ==> !value_lt(#[trigger] self.entries@[i].0, *k),
    {
        let mut p: usize = 0;
        while p < self.entries.len() && value_less(&self.entries[p].0, k)
            invariant
                self.wf(),
                p <= self.entries@.len(),
                forall|i: int| 0 <= i < p ==> value_lt(#[trigger] self.entries@[i].0, *k),
            decreases self.entries.len() - p,
        {
            p += 1;
        }
        proof {
            assert forall|i: int| p <= i < self.entries@.len() implies !value_lt(
                #[trigger] self.entries@[i].0,
                *k,
            ) by {
                if i > p {
                    assert(value_lt(self.entries@[p as int].0, self.entries@[i].0));
                }
            }
        }
        p
    }

    pub fn get(&self, k: &Value) -> (r: Option<Value>)
        requires
            self.wf(),
        ensures
            r == if self@.contains_key(*k) {
                Some(self@[*k])
            } else {
                None
            },
    {
        proof {
            lemma_entries_map(self.entries@);
        }
        let p = self.lower_bound(k);
        if p < self.entries.len() && self.entries[p].0 == *k {
            Some(self.entries[p].1)
        } else {
            proof {
                if has_key(self.entries@, *k) {
                    let i = choose|i: int| 0 <= i < self.entries@.len() && (#[trigger] self.entries@[i]).0 == *k;
                    if i > p {
                        assert(value_lt(self.entries@[p as int].0, self.entries@[i].0));
                    }
                }
            }
            None
        }
    }

    pub fn contains_key(&self, k: &Value) -> (r: bool)
        requires
            self.wf(),
        ensures
            r == self@.contains_key(*k),
    {
        self.get(k).is_some()
    }

    pub fn insert(&mut self, k: Value, v: Value)
        requires
            old(self).wf(),
        ensures
            final(self).wf(),
            final(self)@ == old(self)@.insert(k, v),
    {
        let ghost s = self.entries@;
        proof {
            lemma_entries_map(s);
        }
        let p = self.lower_bound(&k);
        if p < self.entries.len() && self.entries[p].0 == k {
            self.entries.set(p, (k, v));
        } else {
            self.entries.insert(p, (k, v));
            proof {
                assert forall|i: int| p < i < s.len() implies value_lt(k, #[trigger] s[i].0) by {
                    assert(value_lt(s[p as int].0, s[i].0));
                }
            }
        }
        let ghost t = self.entries@;
        proof {
            assert(sorted_keys(t)) by {
                assert forall|i: int, j: int| 0 <= i < j < t.len() implies value_lt(
                    #[trigger] t[i].0,
                    #[trigger] t[j].0,
                ) by {
                    if t.len() > s.len() {
                        if i < p && j < p {
                            assert(t[i] == s[i] && t[j] == s[j]);
                        } else if i < p && j > p {
                            assert(t[i] == s[i] && t[j] == s[j - 1]);
                        } else if i > p {
                            assert(t[i] == s[i - 1] && t[j] == s[j - 1]);
                        } else if i == p {
                            assert(t[j] == s[j - 1]);
                        } else {
                            assert(t[i] == s[i]);
                        }
                    } else {
                        if i != p && j != p {
                            assert(t[i] == s[i] && t[j] == s[j]);
                        } else if i == p {
                            assert(t[j] == s[j]);
                        } else {
                            assert(t[i] == s[i]);
                        }
                    }
                }
            }
            lemma_entries_map(t);
            assert(entries_map(t) =~= entries_map(s).insert(k, v)) by {
                assert forall|x: Value| #[trigger] entries_map(t).contains_key(x)
                    == entries_map(s).insert(k, v).contains_key(x) by {
                    if has_key(t, x) && x != k {
                        let j = choose|j: int| 0 <= j < t.len() && (#[trigger] t[j]).0 == x;
                        if t.len() > s.len() {
                            if j < p {
                                assert(t[j] == s[j]);
                            } else {
                                assert(t[j] == s[j - 1]);
                            }
                        } else {
                            assert(t[j] == s[j]);
                        }
                    }
                    if has_key(s, x) {
                        let i = choose|i: int| 0 <= i < s.len() && (#[trigger] s[i]).0 == x;
                        if t.len() > s.len() {
                            if i < p {
                                assert(t[i] == s[i]);
                            } else {
                                assert(t[i + 1] == s[i]);
                            }
                        } else if i != p {
                            assert(t[i] == s[i]);
                        }
                    }
                    if x == k {
                        assert(t[p as int].0 == k);
                    }
                }
                assert forall|x: Value| #[trigger] entries_map(t).contains_key(x) implies entries_map(
                    t,
                )[x] == entries_map(s).insert(k, v)[x] by {
                    let j = choose|j: int| 0 <= j < t.len() && (#[trigger] t[j]).0 == x;
                    if x != k {
                        if t.len() > s.len() {
                            if j < p {
                                assert(t[j] == s[j]);
                            } else {
                                assert(t[j] == s[j - 1]);
                            }
                        } else {
                            assert(t[j] == s[j]);
                        }
                    } else {
                        assert(t[p as int] == (k, v));
                    }
                }
            }
        }
    }

    pub fn remove(&mut self, k: &Value)
        requires
            old(self).wf(),
        ensures
            final(self).wf(),
            final(self)@ == old(self)@.remove(*k),
    {
        let ghost s = self.entries@;
        proof {
            lemma_entries_map(s);
        }
        let p = self.lower_bound(k);
        if p < self.entries.len() && self.entries[p].0 == *k {
            self.entries.remove(p);
            let ghost t = self.entries@;
            proof {
                assert(sorted_keys(t)) by {
                    assert forall|i: int, j: int| 0 <= i < j < t.len() implies value_lt(
                        #[trigger] t[i].0,
                        #[trigger] t[j].0,
                    ) by {
                        let i2 = if i < p { i } else { i + 1 };
                        let j2 = if j < p { j } else { j + 1 };
                        assert(t[i] == s[i2] && t[j] == s[j2]);
                    }
                }
                lemma_entries_map(t);
                assert(entries_map(t) =~= entries_map(s).remove(*k)) by {
                    assert forall|x: Value| #[trigger] entries_map(t).contains_key(x)
                        == entries_map(s).remove(*k).contains_key(x) by {
                        if has_key(t, x) {
                            let j = choose|j: int| 0 <= j < t.len() && (#[trigger] t[j]).0 == x;
                            let j2 = if j < p { j } else { j + 1 };
                            assert(t[j] == s[j2]);
                            assert(x != *k) by {
                                if j2 != p {
                                    if j2 < p {
                                        assert(value_lt(s[j2].0, s[p as int].0));
                                    } else {
                                        assert(value_lt(s[p as int].0, s[j2].0));
                                    }
                                }
                            }
                        }
                        if has_key(s, x) && x != *k {
                            let i = choose|i: int| 0 <= i < s.len() && (#[trigger] s[i]).0 == x;
                            if i < p {
                                assert(t[i] == s[i]);
                            } else {
                                assert(t[i - 1] == s[i]);
                            }
                        }
                    }
                    assert forall|x: Value| #[trigger] entries_map(t).contains_key(x) implies entries_map(
                        t,
                    )[x] == entries_map(s).remove(*k)[x] by {
                        let j = choose|j: int| 0 <= j < t.len() && (#[trigger] t[j]).0 == x;
                        let j2 = if j < p { j } else { j + 1 };
                        assert(t[j] == s[j2]);
                    }
                }
            }
        } else {
            proof {
                assert(!has_key(s, *k)) by {
                    if has_key(s, *k) {
                        let i = choose|i: int| 0 <= i < s.len() && (#[trigger] s[i]).0 == *k;
                        if i > p {
                            assert(value_lt(s[p as int].0, s[i].0));
                        }
                    }
                }
                assert(entries_map(s).remove(*k) =~= entries_map(s));
            }
        }
    }
}

// ---------------------------------------------------------------------------
// Sorts and the type environment.
/// What the engine knows of a sort.
#[derive(Debug, PartialEq)]
pub struct SortInfo {
    pub name: String,
    pub is_eq_sort: bool,
    pub is_container_sort: bool,
    pub is_eq_container_sort: bool,
}

impl SortInfo {
    pub fn copy(&self) -> (r: SortInfo)
        ensures
            r == *self,
    {
        SortInfo {
            name: self.name.clone(),
            is_eq_sort: self.is_eq_sort,
            is_container_sort: self.is_container_sort,
            is_eq_container_sort: self.is_eq_container_sort,
        }
    }
}

/// The sorts declared so far.
#[derive(Debug, PartialEq)]
pub struct TypeInfo {
    pub sorts: Vec<SortInfo>,
}

/// The first declared sort called `name`.
pub open spec fn lookup_sort(sorts: Seq<SortInfo>, name: Seq<char>) -> Option<SortInfo>
    decreases sorts.len(),
{
    if sorts.len() == 0 {
        None
    } else if sorts[0].name@ == name {
        Some(sorts[0])
    } else {
        lookup_sort(sorts.drop_first(), name)
    }
}

impl TypeInfo {
    pub fn name_to_sort(&self, name: &String) -> (r: Option<SortInfo>)
        ensures
            r == lookup_sort(self.sorts@, name@),
    {
        let mut i: usize = 0;
        assert(self.sorts@.subrange(0, self.sorts@.len() as int) =~= self.sorts@);
        while i < self.sorts.len()
            invariant
                i <= self.sorts@.len(),
                lookup_sort(self.sorts@, name@) == lookup_sort(
                    self.sorts@.subrange(i as int, self.sorts@.len() as int),
                    name@,
                ),
            decreases self.sorts.len() - i,
        {
            let ghost rest = self.sorts@.subrange(i as int, self.sorts@.len() as int);
            if self.sorts[i].name == *name {
                assert(rest[0] == self.sorts@[i as int]);
                return Some(self.sorts[i].copy());
            }
            assert(rest.drop_first() =~= self.sorts@.subrange(i + 1, self.sorts@.len() as int));
            i += 1;
        }
        None
    }
}

/// Why a sort could not be built.
#[derive(Debug, PartialEq)]
pub enum TypeError {
    /// No sort of that name is declared.
    UndefinedSort(String),
    /// A map may not hold eq-containers as keys, nor containers as values.
    DisallowedNesting(String),
    /// A map sort takes exactly two sort names, its key sort and its value sort.
    BadArguments(String),
}

/// An e-class id table: the canonical id of each id (ids past its end are their own).
#[derive(Debug, PartialEq)]
pub struct EClassTable {
    pub canon: Vec<u64>,
}

pub open spec fn find_id(t: Seq<u64>, id: u64) -> u64 {
    if id < t.len() {
        t[id as int]
    } else {
        id
    }
}

/// Canonical ids are their own canonical ids.
pub open spec fn idempotent(t: Seq<u64>) -> bool {
    forall|i: int| 0 <= i < t.len() ==> find_id(t, #[trigger] t[i]) == t[i]
}

/// The canonical form of `v`: its e-class root for values of an eq-sort.
pub open spec fn canon_value(t: Seq<u64>, eq_sort: bool, v: Value) -> Value {
    if eq_sort {
        Value { tag: v.tag, bits: find_id(t, v.bits) }
    } else {
        v
    }
}

impl EClassTable {
    pub fn find(&self, id: u64) -> (r: u64)
        ensures
            r == find_id(self.canon@, id),
    {
        if id < self.canon.len() as u64 {
            self.canon[id as usize]
        } else {
            id
        }
    }

    pub fn canonical(&self, eq_sort: bool, v: Value) -> (r: Value)
        ensures
            r == canon_value(self.canon@, eq_sort, v),
    {
        if eq_sort {
            Value { tag: v.tag, bits: self.find(v.bits) }
        } else {
            v
        }
    }
}

// ---------------------------------------------------------------------------
// The map sort.
/// A map sort over a key sort and a value sort, with its table of interned maps.
#[derive(Debug, PartialEq)]
pub struct MapSort {
    pub name: String,
    pub tag: u64,
    pub key: SortInfo,
    pub value: SortInfo,
    pub maps: Vec<ValueMap>,
}

pub open spec fn table_wf(maps: Seq<ValueMap>) -> bool {
    &&& forall|i: int| 0 <= i < maps.len() ==> (#[trigger] maps[i]).wf()
    &&& forall|i: int, j: int|
        0 <= i < j < maps.len() ==> (#[trigger] maps[i]).entries@ != (#[trigger] maps[j]).entries@
}

/// The seven primitives a map sort registers, in registration order.
pub open spec fn presort_names_spec() -> Seq<Seq<char>> {
    seq![
        "rebuild"@,
        "map-empty"@,
        "map-insert"@,
        "map-get"@,
        "map-not-contains"@,
        "map-contains"@,
        "map-remove"@,
    ]
}

/// The value of the map that `v` denotes, when `v` indexes the table.
pub open spec fn map_at(sort: MapSort, v: Value) -> Map<Value, Value> {
    sort.maps@[v.bits as int]@
}

impl MapSort {
    pub open spec fn wf(&self) -> bool {
        table_wf(self.maps@)
    }

    /// Whether `v` names a map of this sort's table.
    pub open spec fn holds(&self, v: Value) -> bool {
        v.bits < self.maps@.len()
    }

    fn kv_names(&self) -> (r: (String, String))
        ensures
            r.0 == self.key.name,
            r.1 == self.value.name,
    {
        (self.key.name.clone(), self.value.name.clone())
    }

    /// Builds the sort `(Map K V)` named `name` from the arguments `[K, V]`.
    pub fn make_sort(typeinfo: &TypeInfo, name: String, tag: u64, args: &Vec<Expr>) -> (r: Result<
        MapSort,
        TypeError,
    >)
        ensures
            !(args@.len() == 2 && args@[0] is Var && args@[1] is Var) ==> r == Err::<MapSort, TypeError>(
                TypeError::BadArguments(name),
            ),
            args@.len() == 2 && args@[0] is Var && args@[1] is Var ==> ({
                let k = args@[0]->Var_0;
                let v = args@[1]->Var_0;
                match (lookup_sort(typeinfo.sorts@, k@), lookup_sort(typeinfo.sorts@, v@)) {
                    (None, _) => r == Err::<MapSort, TypeError>(TypeError::UndefinedSort(k)),
                    (Some(_), None) => r == Err::<MapSort, TypeError>(TypeError::UndefinedSort(v)),
                    (Some(ks), Some(vs)) => if ks.is_eq_container_sort || vs.is_container_sort {
                        r is Err && r->Err_0 is DisallowedNesting
                    } else {
                        &&& r is Ok
                        &&& r->Ok_0.name == name
                        &&& r->Ok_0.tag == tag
                        &&& r->Ok_0.key == ks
                        &&& r->Ok_0.value == vs
                        &&& r->Ok_0.maps@.len() == 0
                        &&& r->Ok_0.wf()
                    },
                }
            }),
    {
        if args.len() != 2 {
            return Err(TypeError::BadArguments(name));
        }
        let k = match &args[0] {
            Expr::Var(k) => k,
            _ => {
                return Err(TypeError::BadArguments(name));
            },
        };
        let v = match &args[1] {
            Expr::Var(v) => v,
            _ => {
                return Err(TypeError::BadArguments(name));
            },
        };
        let ks = match typeinfo.name_to_sort(k) {
            Some(s) => s,
            None => {
                return Err(TypeError::UndefinedSort(k.clone()));
            },
        };
        let vs = match typeinfo.name_to_sort(v) {
            Some(s) => s,
            None => {
                return Err(TypeError::UndefinedSort(v.clone()));
            },
        };
        if ks.is_eq_container_sort || vs.is_container_sort {
            return Err(TypeError::DisallowedNesting(name));
        }
        Ok(MapSort { name, tag, key: ks, value: vs, maps: Vec::new() })
    }

    /// Names of the primitives a map sort registers.
    pub fn presort_names() -> (r: Vec<String>)
        ensures
            syms_of(r@) == presort_names_spec(),
    {
        let mut r: Vec<String> = Vec::new();
        r.push(String::from_str("rebuild"));
        r.push(String::from_str("map-empty"));
        r.push(String::from_str("map-insert"));
        r.push(String::from_str("map-get"));
        r.push(String::from_str("map-not-contains"));
        r.push(String::from_str("map-contains"));
        r.push(String::from_str("map-remove"));
        assert(syms_of(r@) =~= presort_names_spec());
        r
    }

    pub fn name(&self) -> (r: String)
        ensures
            r == self.name,
    {
        self.name.clone()
    }

    pub fn is_container_sort(&self) -> (r: bool)
        ensures
            r,
    {
        true
    }

    /// A map is an eq-container when its keys or its values are of an eq-sort.
    pub fn is_eq_container_sort(&self) -> (r: bool)
        ensures
            r == (self.key.is_eq_sort || self.value.is_eq_sort),
    {
        self.key.is_eq_sort || self.value.is_eq_sort
    }

    /// Each key and each value of the map `v`, with the name of its sort, in key order.
    pub fn inner_values(&self, v: &Value) -> (r: Vec<(String, Value)>)
        requires
            self.holds(*v),
        ensures
            r@ == inner_pairs(self.key.name, self.value.name, self.maps@[v.bits as int].entries@),
    {
        let n = self.maps.len();
        assert(v.bits < n);
        let map = &self.maps[v.bits as usize];
        let mut r: Vec<(String, Value)> = Vec::new();
        let mut i: usize = 0;
        while i < map.entries.len()
            invariant
                i <= map.entries@.len(),
                r@ == inner_pairs(self.key.name, self.value.name, map.entries@.subrange(0, i as int)),
            decreases map.entries.len() - i,
        {
            let (k, x) = map.entries[i];
            r.push((self.key.name.clone(), k));
            r.push((self.value.name.clone(), x));
            proof {
                let es = map.entries@.subrange(0, i + 1);
                assert(es.drop_last() =~= map.entries@.subrange(0, i as int));
            }
            i += 1;
        }
        assert(map.entries@.subrange(0, i as int) =~= map.entries@);
        r
    }

    /// Rewrites the map `value` so that its eq-sort keys and values are their roots,
    /// interning the result, and reports whether any key or value changed.
    pub fn canonicalize(&mut self, value: &mut Value, table: &EClassTable) -> (r: bool)
        requires
            old(self).wf(),
            old(self).holds(*old(value)),
        ensures
            final(self).wf(),
            final(self).name == old(self).name,
            final(self).tag == old(self).tag,
            final(self).key == old(self).key,
            final(self).value == old(self).value,
            forall|i: int| 0 <= i < old(self).maps@.len() ==> final(self).maps@[i] == old(self).maps@[i],
            final(self).holds(*final(value)),
            final(value).tag == old(self).tag,
            ({
                let s = old(self).maps@[old(value).bits as int].entries@;
                let t = table.canon@;
                let ke = old(self).key.is_eq_sort;
                let ve = old(self).value.is_eq_sort;
                &&& entries_map(final(self).maps@[final(value).bits as int].entries@) == entries_map(
                    canon_entries(t, ke, ve, s),
                )
                &&& r == !entries_canonical(t, ke, ve, s)
                &&& !r ==> final(value).bits == old(value).bits
            }),
    {
        let (v, changed) = self.rebuild(value, table);
        *value = v;
        changed
    }

    /// Interns `map`, returning the value that names it.
    pub fn store(&mut self, map: ValueMap) -> (r: Value)
        requires
            old(self).wf(),
            map.wf(),
        ensures
            final(self).wf(),
            final(self).name == old(self).name,
            final(self).tag == old(self).tag,
            final(self).key == old(self).key,
            final(self).value == old(self).value,
            r.tag == old(self).tag,
            final(self).holds(r),
            final(self).maps@[r.bits as int].entries@ == map.entries@,
            final(self).maps@.len() >= old(self).maps@.len(),
            forall|i: int| 0 <= i < old(self).maps@.len() ==> final(self).maps@[i] == old(self).maps@[i],
    {
        let mut i: usize = 0;
        while i < self.maps.len()
            invariant
                self.wf(),
                i <= self.maps@.len(),
                forall|j: int| 0 <= j < i ==> (#[trigger] self.maps@[j]).entries@ != map.entries@,
            decreases self.maps.len() - i,
        {
            if same_entries(&self.maps[i].entries, &map.entries) {
                return Value { tag: self.tag, bits: i as u64 };
            }
            i += 1;
        }
        let n = self.maps.len();
        let ghost before = self.maps@;
        self.maps.push(map);
        proof {
            assert forall|i: int, j: int| 0 <= i < j < self.maps@.len() implies (#[trigger] self.maps@[i]).entries@
                != (#[trigger] self.maps@[j]).entries@ by {
                if j < n {
                    assert(self.maps@[i] == before[i] && self.maps@[j] == before[j]);
                }
            }
        }
        Value { tag: self.tag, bits: n as u64 }
    }

    /// A copy of the map that `v` names.
    pub fn load(&self, v: &Value) -> (r: ValueMap)
        requires
            self.holds(*v),
        ensures
            r.entries@ == self.maps@[v.bits as int].entries@,
    {
        let n = self.maps.len();
        assert(v.bits < n);
        self.maps[v.bits as usize].copy()
    }
}

fn same_entries(a: &Vec<(Value, Value)>, b: &Vec<(Value, Value)>) -> (r: bool)
    ensures
        r == (a@ == b@),
{
    if a.len() != b.len() {
        return false;
    }
    let mut i: usize = 0;
    while i < a.len()
        invariant
            a@.len() == b@.len(),
            i <= a@.len(),
            forall|j: int| 0 <= j < i ==> a@[j] == b@[j],
        decreases a.len() - i,
    {
        if a[i].0 != b[i].0 || a[i].1 != b[i].1 {
            return false;
        }
        i += 1;
    }
    assert(a@ =~= b@);
    true
}

/// The pairs `(sort name, value)` for each key and value of `es`, in order.
pub open spec fn inner_pairs(key_sort: String, value_sort: String, es: Seq<(Value, Value)>) -> Seq<
    (String, Value),
>
    decreases es.len(),
{
    if es.len() == 0 {
        seq![]
    } else {
        inner_pairs(key_sort, value_sort, es.drop_last()).push((key_sort, es.last().0)).push(
            (value_sort, es.last().1),
        )
    }
}

pub open spec fn syms_of(v: Seq<String>) -> Seq<Seq<char>> {
    v.map_values(|s: String| s@)
}

// ---------------------------------------------------------------------------
// Rebuilding.
/// The entries with keys and values replaced by their canonical forms.
pub open spec fn canon_entries(t: Seq<u64>, key_eq: bool, value_eq: bool, s: Seq<(Value, Value)>) -> Seq<
    (Value, Value),
> {
    s.map_values(|e: (Value, Value)| (canon_value(t, key_eq, e.0), canon_value(t, value_eq, e.1)))
}

/// Every key and value of `s` is already canonical.
pub open spec fn entries_canonical(t: Seq<u64>, key_eq: bool, value_eq: bool, s: Seq<(Value, Value)>) -> bool {
    forall|j: int|
        0 <= j < s.len() ==> canon_value(t, key_eq, (#[trigger] s[j]).0) == s[j].0 && canon_value(
            t,
            value_eq,
            s[j].1,
        ) == s[j].1
}

/// Canonicalising canonical entries changes nothing.
pub proof fn lemma_canonical_entries_fixed(t: Seq<u64>, key_eq: bool, value_eq: bool, s: Seq<(Value, Value)>)
    requires
        entries_canonical(t, key_eq, value_eq, s),
    ensures
        canon_entries(t, key_eq, value_eq, s) == s,
{
    assert(canon_entries(t, key_eq, value_eq, s) =~= s);
}

/// Over an idempotent id table one rebuild gives canonical entries, and rebuilding
/// those changes nothing: repeated rebuilds stop after one step, with every key and
/// value at its root.
pub proof fn lemma_rebuild_fixpoint(t: Seq<u64>, key_eq: bool, value_eq: bool, s: Seq<(Value, Value)>)
    requires
        idempotent(t),
    ensures
        entries_canonical(t, key_eq, value_eq, canon_entries(t, key_eq, value_eq, s)),
        canon_entries(t, key_eq, value_eq, canon_entries(t, key_eq, value_eq, s)) == canon_entries(
            t,
            key_eq,
            value_eq,
            s,
        ),
{
    let c = canon_entries(t, key_eq, value_eq, s);
    assert forall|j: int| 0 <= j < c.len() implies canon_value(t, key_eq, (#[trigger] c[j]).0) == c[j].0
        && canon_value(t, value_eq, c[j].1) == c[j].1 by {
        lemma_canon_idempotent(t, key_eq, s[j].0);
        lemma_canon_idempotent(t, value_eq, s[j].1);
    }
    lemma_canonical_entries_fixed(t, key_eq, value_eq, c);
}

proof fn lemma_canon_idempotent(t: Seq<u64>, eq: bool, v: Value)
    requires
        idempotent(t),
    ensures
        canon_value(t, eq, canon_value(t, eq, v)) == canon_value(t, eq, v),
{
    if eq && v.bits < t.len() {
        assert(find_id(t, t[v.bits as int]) == t[v.bits as int]);
    }
}

proof fn lemma_entries_map_origin(c: Seq<(Value, Value)>, k: Value)
    requires
        entries_map(c).contains_key(k),
    ensures
        exists|j: int| 0 <= j < c.len() && (#[trigger] c[j]).0 == k && entries_map(c)[k] == c[j].1,
    decreases c.len(),
{
    let p = c.drop_last();
    if k == c.last().0 {
        assert(c[c.len() - 1].0 == k);
    } else {
        lemma_entries_map_origin(p, k);
        let j = choose|j: int| 0 <= j < p.len() && (#[trigger] p[j]).0 == k && entries_map(p)[k] == p[j].1;
        assert(c[j] == p[j]);
    }
}

impl MapSort {
    /// Rebuilds the map `v` with every key and value mapped to its canonical form (a key
    /// that two keys collapse to keeps the later entry), interns it, and reports whether
    /// any key or value changed.
    pub fn rebuild(&mut self, v: &Value, table: &EClassTable) -> (r: (Value, bool))
        requires
            old(self).wf(),
            old(self).holds(*v),
        ensures
            final(self).wf(),
            final(self).name == old(self).name,
            final(self).tag == old(self).tag,
            final(self).key == old(self).key,
            final(self).value == old(self).value,
            forall|i: int| 0 <= i < old(self).maps@.len() ==> final(self).maps@[i] == old(self).maps@[i],
            final(self).holds(r.0),
            r.0.tag == old(self).tag,
            ({
                let s = old(self).maps@[v.bits as int].entries@;
                let t = table.canon@;
                let ke = old(self).key.is_eq_sort;
                let ve = old(self).value.is_eq_sort;
                let new_entries = final(self).maps@[r.0.bits as int].entries@;
                &&& entries_map(new_entries) == entries_map(canon_entries(t, ke, ve, s))
                &&& r.1 == !entries_canonical(t, ke, ve, s)
                &&& !r.1 ==> r.0.bits == v.bits
                &&& idempotent(t) ==> entries_canonical(t, ke, ve, new_entries)
            }),
    {
        let ghost t = table.canon@;
        let ke = self.key.is_eq_sort;
        let ve = self.value.is_eq_sort;
        let old_map = self.load(v);
        let ghost s = old_map.entries@;
        let ghost c = canon_entries(t, ke, ve, s);
        let mut new_map = ValueMap::new();
        let mut changed = false;
        let mut i: usize = 0;
        while i < old_map.entries.len()
            invariant
                s == old_map.entries@,
                c == canon_entries(t, ke, ve, s),
                t == table.canon@,
                i <= s.len(),
                new_map.wf(),
                new_map@ == entries_map(c.subrange(0, i as int)),
                changed == !entries_canonical(t, ke, ve, s.subrange(0, i as int)),
            decreases old_map.entries.len() - i,
        {
            let (k, x) = old_map.entries[i];
            let k2 = table.canonical(ke, k);
            let x2 = table.canonical(ve, x);
            if k2 != k || x2 != x {
                changed = true;
            }
            new_map.insert(k2, x2);
            proof {
                assert(c.subrange(0, i + 1).drop_last() =~= c.subrange(0, i as int));
                let a = s.subrange(0, i as int);
                let b = s.subrange(0, i + 1);
                if entries_canonical(t, ke, ve, b) {
                    assert forall|j: int| 0 <= j < a.len() implies canon_value(t, ke, (#[trigger] a[j]).0)
                        == a[j].0 && canon_value(t, ve, a[j].1) == a[j].1 by {
                        assert(a[j] == b[j]);
                    }
                    assert(b[i as int] == s[i as int]);
                }
                if !changed {
                    assert forall|j: int| 0 <= j < b.len() implies canon_value(t, ke, (#[trigger] b[j]).0)
                        == b[j].0 && canon_value(t, ve, b[j].1) == b[j].1 by {
                        if j < i {
                            assert(a[j] == b[j]);
                        }
                    }
                }
            }
            i += 1;
        }
        proof {
            assert(c.subrange(0, i as int) =~= c);
            assert(s.subrange(0, i as int) =~= s);
        }
        let ghost nm = new_map.entries@;
        let r = self.store(new_map);
        proof {
            if !changed {
                lemma_canonical_entries_fixed(t, ke, ve, s);
                lemma_entries_map(nm);
                lemma_entries_map(s);
                assert(nm =~= s) by {
                    lemma_sorted_same_map(nm, s);
                }
                if r.bits != v.bits {
                    if r.bits < v.bits {
                        assert(self.maps@[r.bits as int].entries@ != self.maps@[v.bits as int].entries@);
                    } else {
                        assert(self.maps@[v.bits as int].entries@ != self.maps@[r.bits as int].entries@);
                    }
                }
            }
            if idempotent(t) {
                lemma_entries_map(nm);
                assert forall|j: int| 0 <= j < nm.len() implies canon_value(t, ke, (#[trigger] nm[j]).0)
                    == nm[j].0 && canon_value(t, ve, nm[j].1) == nm[j].1 by {
                    assert(entries_map(nm).contains_key(nm[j].0)) by {
                        assert(has_key(nm, nm[j].0));
                    }
                    lemma_entries_map_origin(c, nm[j].0);
                    let q = choose|q: int| 0 <= q < c.len() && (#[trigger] c[q]).0 == nm[j].0 && entries_map(c)[nm[j].0] == c[q].1;
                    lemma_canon_idempotent(t, ke, s[q].0);
                    lemma_canon_idempotent(t, ve, s[q].1);
                }
            }
        }
        (r, changed)
    }
}

/// Two sorted entry sequences that denote the same map are equal.
proof fn lemma_sorted_same_map(a: Seq<(Value, Value)>, b: Seq<(Value, Value)>)
    requires
        sorted_keys(a),
        sorted_keys(b),
        entries_map(a) == entries_map(b),
    ensures
        a == b,
    decreases a.len(),
{
    lemma_entries_map(a);
    lemma_entries_map(b);
    if a.len() == 0 {
        if b.len() > 0 {
            assert(entries_map(b).contains_key(b[0].0)) by {
                assert(has_key(b, b[0].0));
            }
        }
        assert(a =~= b);
    } else if b.len() == 0 {
        assert(entries_map(a).contains_key(a[0].0)) by {
            assert(has_key(a, a[0].0));
        }
    } else {
        // the largest keys agree
        let ka = a.last().0;
        let kb = b.last().0;
        assert(has_key(a, ka));
        assert(has_key(b, kb));
        assert(entries_map(b).contains_key(ka));
        assert(entries_map(a).contains_key(kb));
        let ia = choose|i: int| 0 <= i < b.len() && (#[trigger] b[i]).0 == ka;
        let ib = choose|i: int| 0 <= i < a.len() && (#[trigger] a[i]).0 == kb;
        if ia < b.len() - 1 {
            assert(value_lt(b[ia].0, b[b.len() - 1].0));
            if ib < a.len() - 1 {
                assert(value_lt(a[ib].0, a[a.len() - 1].0));
                assert(false) by {
                    assert(value_lt(ka, kb) && value_lt(kb, ka));
                }
            }
        }
        assert(ka == kb) by {
            if ka != kb {
                if ia == b.len() - 1 {
                } else if ib == a.len() - 1 {
                } else {
                }
            }
        }
        assert(a.last() == b.last()) by {
            assert(entries_map(a)[ka] == a.last().1);
            assert(entries_map(b)[kb] == b.last().1);
        }
        let pa = a.drop_last();
        let pb = b.drop_last();
        assert(sorted_keys(pa)) by {
            assert forall|i: int, j: int| 0 <= i < j < pa.len() implies value_lt(
                #[trigger] pa[i].0,
                #[trigger] pa[j].0,
            ) by {
                assert(pa[i] == a[i] && pa[j] == a[j]);
            }
        }
        assert(sorted_keys(pb)) by {
            assert forall|i: int, j: int| 0 <= i < j < pb.len() implies value_lt(
                #[trigger] pb[i].0,
                #[trigger] pb[j].0,
            ) by {
                assert(pb[i] == b[i] && pb[j] == b[j]);
            }
        }
        lemma_entries_map(pa);
        lemma_entries_map(pb);
        assert(entries_map(pa) =~= entries_map(pb)) by {
            assert forall|x: Value| #[trigger] entries_map(pa).contains_key(x) == entries_map(pb).contains_key(x) by {
                if has_key(pa, x) {
                    let i = choose|i: int| 0 <= i < pa.len() && (#[trigger] pa[i]).0 == x;
                    assert(a[i] == pa[i]);
                    assert(value_lt(x, ka));
                    assert(has_key(a, x));
                    assert(entries_map(a).contains_key(x));
                    assert(entries_map(b).contains_key(x));
                    assert(has_key(b, x));
                    let q = choose|q: int| 0 <= q < b.len() && (#[trigger] b[q]).0 == x;
                    if q == b.len() - 1 {
                        assert(false);
                    }
                    assert(pb[q] == b[q]);
                    assert(has_key(pb, x));
                }
                if has_key(pb, x) {
                    let i = choose|i: int| 0 <= i < pb.len() && (#[trigger] pb[i]).0 == x;
                    assert(b[i] == pb[i]);
                    assert(value_lt(x, kb));
                    assert(has_key(b, x));
                    assert(entries_map(b).contains_key(x));
                    assert(entries_map(a).contains_key(x));
                    assert(has_key(a, x));
                    let q = choose|q: int| 0 <= q < a.len() && (#[trigger] a[q]).0 == x;
                    if q == a.len() - 1 {
                        assert(false);
                    }
                    assert(pa[q] == a[q]);
                    assert(has_key(pa, x));
                }
            }
            assert forall|x: Value| #[trigger] entries_map(pa).contains_key(x) implies entries_map(pa)[x]
                == entries_map(pb)[x] by {
                let i = choose|i: int| 0 <= i < pa.len() && (#[trigger] pa[i]).0 == x;
                assert(a[i] == pa[i]);
                let q = choose|q: int| 0 <= q < pb.len() && (#[trigger] pb[q]).0 == x;
                assert(b[q] == pb[q]);
                assert(entries_map(a)[x] == a[i].1);
                assert(entries_map(b)[x] == b[q].1);
            }
        }
        lemma_sorted_same_map(pa, pb);
        assert(a =~= pa.push(a.last()));
        assert(b =~= pb.push(b.last()));
    }
}

// ---------------------------------------------------------------------------
// Primitives.
/// The primitive operations a map sort registers.
#[derive(PartialEq, Eq, Structural, Clone, Copy, Debug)]
pub enum MapPrimitive {
    Rebuild,
    Empty,
    Insert,
    Get,
    NotContains,
    Contains,
    Remove,
}

pub open spec fn primitive_name(p: MapPrimitive) -> Seq<char> {
    match p {
        MapPrimitive::Rebuild => "rebuild"@,
        MapPrimitive::Empty => "map-empty"@,
        MapPrimitive::Insert => "map-insert"@,
        MapPrimitive::Get => "map-get"@,
        MapPrimitive::NotContains => "map-not-contains"@,
        MapPrimitive::Contains => "map-contains"@,
        MapPrimitive::Remove => "map-remove"@,
    }
}

/// The output sort of primitive `p` on argument sorts `types`, if it accepts them.
pub open spec fn accept_spec(
    p: MapPrimitive,
    map: Seq<char>,
    key: Seq<char>,
    value: Seq<char>,
    unit: Seq<char>,
    types: Seq<Seq<char>>,
) -> Option<Seq<char>> {
    match p {
        MapPrimitive::Rebuild => if types == seq![map] { Some(map) } else { None },
        MapPrimitive::Empty => if types.len() == 0 { Some(map) } else { None },
        MapPrimitive::Insert => if types == seq![map, key, value] { Some(map) } else { None },
        MapPrimitive::Get => if types == seq![map, key] { Some(value) } else { None },
        MapPrimitive::NotContains => if types == seq![map, key] { Some(unit) } else { None },
        MapPrimitive::Contains => if types == seq![map, key] { Some(unit) } else { None },
        MapPrimitive::Remove => if types == seq![map, key] { Some(map) } else { None },
    }
}

/// The arguments that primitive `p` is applied to: the right number, with the map first.
pub open spec fn apply_arity(p: MapPrimitive, sort: MapSort, values: Seq<Value>) -> bool {
    match p {
        MapPrimitive::Empty => values.len() == 0,
        MapPrimitive::Rebuild => values.len() == 1 && sort.holds(values[0]),
        MapPrimitive::Insert => values.len() == 3 && sort.holds(values[0]),
        _ => values.len() == 2 && sort.holds(values[0]),
    }
}

fn types_are(types: &Vec<String>, expected: &Vec<String>) -> (r: bool)
    ensures
        r == (syms_of(types@) == syms_of(expected@)),
{
    if types.len() != expected.len() {
        proof {
            assert(syms_of(types@).len() != syms_of(expected@).len());
        }
        return false;
    }
    let mut i: usize = 0;
    while i < types.len()
        invariant
            types@.len() == expected@.len(),
            i <= types@.len(),
            forall|j: int| 0 <= j < i ==> types@[j]@ == expected@[j]@,
        decreases types.len() - i,
    {
        if types[i] != expected[i] {
            proof {
                assert(syms_of(types@)[i as int] != syms_of(expected@)[i as int]);
            }
            return false;
        }
        i += 1;
    }
    assert(syms_of(types@) =~= syms_of(expected@));
    true
}

impl MapPrimitive {
    /// The primitives in registration order.
    pub fn register_primitives() -> (r: Vec<MapPrimitive>)
        ensures
            r@ == seq![
                MapPrimitive::Rebuild,
                MapPrimitive::Empty,
                MapPrimitive::Insert,
                MapPrimitive::Get,
                MapPrimitive::NotContains,
                MapPrimitive::Contains,
                MapPrimitive::Remove,
            ],
    {
        let r = vec![
            MapPrimitive::Rebuild,
            MapPrimitive::Empty,
            MapPrimitive::Insert,
            MapPrimitive::Get,
            MapPrimitive::NotContains,
            MapPrimitive::Contains,
            MapPrimitive::Remove,
        ];
        assert(r@ =~= seq![
            MapPrimitive::Rebuild,
            MapPrimitive::Empty,
            MapPrimitive::Insert,
            MapPrimitive::Get,
            MapPrimitive::NotContains,
            MapPrimitive::Contains,
            MapPrimitive::Remove,
        ]);
        r
    }

    pub fn name(&self) -> (r: String)
        ensures
            r@ == primitive_name(*self),
    {
        match self {
            MapPrimitive::Rebuild => String::from_str("rebuild"),
            MapPrimitive::Empty => String::from_str("map-empty"),
            MapPrimitive::Insert => String::from_str("map-insert"),
            MapPrimitive::Get => String::from_str("map-get"),
            MapPrimitive::NotContains => String::from_str("map-not-contains"),
            MapPrimitive::Contains => String::from_str("map-contains"),
            MapPrimitive::Remove => String::from_str("map-remove"),
        }
    }

    /// The output sort when the argument sorts are `types`, or `None` when they do not fit.
    pub fn accept(&self, sort: &MapSort, types: &Vec<String>, unit: &String) -> (r: Option<String>)
        ensures
            match r {
                Some(x) => accept_spec(
                    *self,
                    sort.name@,
                    sort.key.name@,
                    sort.value.name@,
                    unit@,
                    syms_of(types@),
                ) == Some(x@),
                None => accept_spec(
                    *self,
                    sort.name@,
                    sort.key.name@,
                    sort.value.name@,
                    unit@,
                    syms_of(types@),
                ) is None,
            },
    {
        let m = sort.name.clone();
        let (k, v) = sort.kv_names();
        let expected: Vec<String> = match self {
            MapPrimitive::Rebuild => vec![m.clone()],
            MapPrimitive::Empty => Vec::new(),
            MapPrimitive::Insert => vec![m.clone(), k, v],
            _ => vec![m.clone(), k],
        };
        proof {
            let ts = syms_of(expected@);
            match *self {
                MapPrimitive::Rebuild => assert(ts =~= seq![sort.name@]),
                MapPrimitive::Empty => assert(ts =~= seq![]),
                MapPrimitive::Insert => assert(ts =~= seq![sort.name@, sort.key.name@, sort.value.name@]),
                _ => assert(ts =~= seq![sort.name@, sort.key.name@]),
            }
        }
        if !types_are(types, &expected) {
            proof {
                let ts = syms_of(types@);
                match *self {
                    MapPrimitive::Empty => assert(ts.len() != 0) by {
                        if ts.len() == 0 {
                            assert(ts =~= syms_of(expected@));
                        }
                    },
                    _ => {},
                }
            }
            return None;
        }
        match self {
            MapPrimitive::Get => Some(sort.value.name.clone()),
            MapPrimitive::NotContains | MapPrimitive::Contains => Some(unit.clone()),
            _ => Some(m),
        }
    }

    /// Applies the primitive; `None` when its precondition on the values fails (a
    /// missing key for `map-get`, a present key for `map-not-contains`, and so on).
    pub fn apply(&self, sort: &mut MapSort, values: &Vec<Value>, table: &EClassTable) -> (r: Option<Value>)
        requires
            old(sort).wf(),
            apply_arity(*self, *old(sort), values@),
        ensures
            final(sort).wf(),
            final(sort).tag == old(sort).tag,
            forall|i: int| 0 <= i < old(sort).maps@.len() ==> final(sort).maps@[i] == old(sort).maps@[i],
            (*self == MapPrimitive::Empty || *self == MapPrimitive::Rebuild || *self == MapPrimitive::Insert
                || *self == MapPrimitive::Remove) ==> r is Some && final(sort).holds(r->Some_0),
            (*self == MapPrimitive::Get || *self == MapPrimitive::Contains || *self == MapPrimitive::NotContains)
                ==> *final(sort) == *old(sort),
            match *self {
                MapPrimitive::Empty => r is Some && r->Some_0.tag == old(sort).tag
                    && map_at(*final(sort), r->Some_0) == Map::<Value, Value>::empty(),
                MapPrimitive::Rebuild => r is Some && r->Some_0.tag == old(sort).tag
                    && map_at(*final(sort), r->Some_0) == entries_map(
                    canon_entries(
                        table.canon@,
                        old(sort).key.is_eq_sort,
                        old(sort).value.is_eq_sort,
                        old(sort).maps@[values@[0].bits as int].entries@,
                    ),
                ),
                MapPrimitive::Insert => r is Some && r->Some_0.tag == old(sort).tag
                    && map_at(*final(sort), r->Some_0) == map_at(*old(sort), values@[0]).insert(
                    values@[1],
                    values@[2],
                ),
                MapPrimitive::Get => r == if map_at(*old(sort), values@[0]).contains_key(values@[1]) {
                    Some(map_at(*old(sort), values@[0])[values@[1]])
                } else {
                    None
                },
                MapPrimitive::NotContains => r == if map_at(*old(sort), values@[0]).contains_key(
                    values@[1],
                ) {
                    None
                } else {
                    Some(Value { tag: UNIT_TAG, bits: 0 })
                },
                MapPrimitive::Contains => r == if map_at(*old(sort), values@[0]).contains_key(
                    values@[1],
                ) {
                    Some(Value { tag: UNIT_TAG, bits: 0 })
                } else {
                    None
                },
                MapPrimitive::Remove => r is Some && r->Some_0.tag == old(sort).tag
                    && map_at(*final(sort), r->Some_0) == map_at(*old(sort), values@[0]).remove(
                    values@[1],
                ),
            },
    {
        match self {
            MapPrimitive::Empty => {
                let m = ValueMap::new();
                let r = sort.store(m);
                proof {
                    assert(entries_map(sort.maps@[r.bits as int].entries@) == entries_map(seq![]));
                }
                Some(r)
            },
            MapPrimitive::Rebuild => {
                let (r, _changed) = sort.rebuild(&values[0], table);
                Some(r)
            },
            MapPrimitive::Insert => {
                let mut m = sort.load(&values[0]);
                m.insert(values[1], values[2]);
                let ghost mv = m@;
                Some(sort.store(m))
            },
            MapPrimitive::Get => {
                let m = sort.load(&values[0]);
                m.get(&values[1])
            },
            MapPrimitive::NotContains => {
                let m = sort.load(&values[0]);
                if m.contains_key(&values[1]) {
                    None
                } else {
                    Some(Value::unit())
                }
            },
            MapPrimitive::Contains => {
                let m = sort.load(&values[0]);
                if m.contains_key(&values[1]) {
                    Some(Value::unit())
                } else {
                    None
                }
            },
            MapPrimitive::Remove => {
                let mut m = sort.load(&values[0]);
                m.remove(&values[1]);
                Some(sort.store(m))
            },
        }
    }
}

/// The two ordering primitives, defined on any two values of one sort.
#[derive(PartialEq, Eq, Structural, Clone, Copy, Debug)]
pub enum TermOrdering {
    Min,
    Max,
}

impl TermOrdering {
    pub fn name(&self) -> (r: String)
        ensures
            r@ == match *self {
                TermOrdering::Min => "ordering-min"@,
                TermOrdering::Max => "ordering-max"@,
            },
    {
        match self {
            TermOrdering::Min => String::from_str("ordering-min"),
            TermOrdering::Max => String::from_str("ordering-max"),
        }
    }

    /// Accepts two arguments of the same sort, and returns that sort.
    pub fn accept(&self, types: &Vec<String>) -> (r: Option<String>)
        ensures
            r is Some <==> (types@.len() == 2 && types@[0]@ == types@[1]@),
            r is Some ==> r->Some_0@ == types@[0]@,
    {
        if types.len() == 2 && types[0] == types[1] {
            Some(types[0].clone())
        } else {
            None
        }
    }

    /// The smaller (`Min`) or larger (`Max`) of two values.
    pub fn apply(&self, values: &Vec<Value>) -> (r: Value)
        requires
            values@.len() == 2,
        ensures
            match *self {
                TermOrdering::Min => r == if value_lt(values@[0], values@[1]) {
                    values@[0]
                } else {
                    values@[1]
                },
                TermOrdering::Max => r == if value_lt(values@[1], values@[0]) {
                    values@[0]
                } else {
                    values@[1]
                },
            },
    {
        match self {
            TermOrdering::Min => if value_less(&values[0], &values[1]) {
                values[0]
            } else {
                values[1]
            },
            TermOrdering::Max => if value_less(&values[1], &values[0]) {
                values[0]
            } else {
                values[1]
            },
        }
    }
}

// ---------------------------------------------------------------------------
// Terms for extraction.
/// `map-insert` applied from the last entry inwards, atop `map-empty`: the term for the
/// entries from index `i` on.
pub open spec fn insert_chain(terms: Seq<(ExprV, ExprV)>, i: nat) -> ExprV
    decreases terms.len() - i,
{
    if i >= terms.len() {
        ExprV::Call("map-empty"@, seq![])
    } else {
        ExprV::Call("map-insert"@, seq![insert_chain(terms, i + 1), terms[i as int].0, terms[i as int].1])
    }
}

pub open spec fn term_pairs_view(v: Seq<(Expr, Expr)>) -> Seq<(ExprV, ExprV)> {
    v.map_values(|p: (Expr, Expr)| (p.0@, p.1@))
}

fn three_exprs(a: Expr, b: Expr, c: Expr) -> (r: Vec<Expr>)
    ensures
        exprs_view(r@) == seq![a@, b@, c@],
{
    let mut r: Vec<Expr> = Vec::new();
    r.push(a);
    r.push(b);
    r.push(c);
    assert(exprs_view(r@) =~= seq![a@, b@, c@]);
    r
}

impl MapSort {
    /// The term that rebuilds the map `value`, given the extracted terms of its keys and
    /// values in key order.
    pub fn make_expr(&self, value: &Value, terms: &Vec<(Expr, Expr)>) -> (r: Expr)
        requires
            self.holds(*value),
            terms@.len() == self.maps@[value.bits as int].entries@.len(),
        ensures
            r@ == insert_chain(term_pairs_view(terms@), 0),
    {
        let ghost tv = term_pairs_view(terms@);
        let empty_args: Vec<Expr> = Vec::new();
        let empty_name = String::from_str("map-empty");
        proof {
            lemma_call_view(empty_name, empty_args);
            assert(exprs_view(empty_args@) =~= seq![]);
        }
        let mut expr = Expr::Call(empty_name, empty_args);
        let mut j: usize = terms.len();
        while j > 0
            invariant
                tv == term_pairs_view(terms@),
                j <= terms@.len(),
                expr@ == insert_chain(tv, j as nat),
            decreases j,
        {
            j -= 1;
            let (k, v) = &terms[j];
            let args = three_exprs(expr, k.copy(), v.copy());
            let name = String::from_str("map-insert");
            proof {
                lemma_call_view(name, args);
                assert(tv[j as int] == (k@, v@));
            }
            expr = Expr::Call(name, args);
        }
        expr
    }
}

} // verus!
