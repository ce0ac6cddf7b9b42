use vstd::prelude::*;

use crate::value::{Value, ValueV, value_view};

verus! {

/// A handle to a lexical scope held in a [`Store`].
#[derive(Debug, Clone, Copy, PartialEq, Eq)]
pub struct Env {
    pub id: usize,
}

/// A handle to a table held in a [`Store`].
#[derive(Debug, Clone, Copy, PartialEq, Eq)]
pub struct TableRef {
    pub id: usize,
}

/// An association list: keys with their values, in insertion order.
pub type Assoc = Seq<(Seq<char>, ValueV)>;

/// The model of one scope: its own bindings and its enclosing scope.
pub struct FrameV {
    pub bindings: Assoc,
    pub parent: Option<nat>,
}

/// The model of a [`Store`]: every scope and every table ever created,
/// indexed by their handles.
pub struct StoreV {
    pub frames: Seq<FrameV>,
    pub tables: Seq<Assoc>,
}

/// The position of the first entry with key `k`, or -1.
pub open spec fn assoc_pos(a: Assoc, k: Seq<char>) -> int
    decreases a.len(),
{
    if a.len() == 0 {
        -1
    } else {
        let p = assoc_pos(a.drop_last(), k);
        if p >= 0 {
            p
        } else if a.last().0 == k {
            a.len() - 1
        } else {
            -1
        }
    }
}

/// The value bound to `k`, if any.
pub open spec fn assoc_get(a: Assoc, k: Seq<char>) -> Option<ValueV> {
    let p = assoc_pos(a, k);
    if p >= 0 {
        Some(a[p].1)
    } else {
        None
    }
}

/// `a` with `k` bound to `v`: the entry is replaced in place, or added at the end.
pub open spec fn assoc_set(a: Assoc, k: Seq<char>, v: ValueV) -> Assoc {
    let p = assoc_pos(a, k);
    if p >= 0 {
        a.update(p, (k, v))
    } else {
        a.push((k, v))
    }
}

/// The keys of `a`, in order.
pub open spec fn assoc_keys(a: Assoc) -> Seq<Seq<char>> {
    a.map_values(|e: (Seq<char>, ValueV)| e.0)
}

/// No key occurs twice.
pub open spec fn keys_unique(a: Assoc) -> bool {
    forall|i: int, j: int| 0 <= i < j < a.len() ==> a[i].0 != a[j].0
}

/// `assoc_pos` is the first position holding `k`.
pub proof fn lemma_assoc_pos(a: Assoc, k: Seq<char>)
    ensures
        -1 <= assoc_pos(a, k) < a.len(),
        assoc_pos(a, k) >= 0 ==> a[assoc_pos(a, k)].0 == k,
        forall|j: int| 0 <= j < a.len() && (assoc_pos(a, k) < 0 || j < assoc_pos(a, k))
            ==> a[j].0 != k,
    decreases a.len(),
{
    if a.len() > 0 {
        let b = a.drop_last();
        lemma_assoc_pos(b, k);
        assert forall|j: int| 0 <= j < a.len() && (assoc_pos(a, k) < 0 || j < assoc_pos(a, k))
            implies a[j].0 != k by {
            if j < b.len() {
                assert(a[j] == b[j]);
            }
        }
    }
}

/// A position that holds `k`, with no earlier one, is `assoc_pos`.
pub proof fn lemma_assoc_pos_found(a: Assoc, k: Seq<char>, i: int)
    requires
        0 <= i < a.len(),
        a[i].0 == k,
        forall|j: int| 0 <= j < i ==> a[j].0 != k,
    ensures
        assoc_pos(a, k) == i,
{
    lemma_assoc_pos(a, k);
}

/// With no position holding `k`, `assoc_pos` is -1.
pub proof fn lemma_assoc_pos_absent(a: Assoc, k: Seq<char>)
    requires
        forall|j: int| 0 <= j < a.len() ==> a[j].0 != k,
    ensures
        assoc_pos(a, k) == -1,
{
    lemma_assoc_pos(a, k);
}

/// What `assoc_set` gives back on a read.
pub proof fn lemma_assoc_set_get(a: Assoc, k: Seq<char>, v: ValueV, k2: Seq<char>)
    ensures
        assoc_get(assoc_set(a, k, v), k2) == (if k2 == k {
            Some(v)
        } else {
            assoc_get(a, k2)
        }),
        keys_unique(a) ==> keys_unique(assoc_set(a, k, v)),
        assoc_set(a, k, v).len() == a.len() || assoc_set(a, k, v).len() == a.len() + 1,
{
    lemma_assoc_pos(a, k);
    lemma_assoc_pos(a, k2);
    let b = assoc_set(a, k, v);
    lemma_assoc_pos(b, k2);
    let p = assoc_pos(a, k);
    let p2 = assoc_pos(a, k2);
    if k2 == k {
        if p >= 0 {
            lemma_assoc_pos_found(b, k2, p);
        } else {
            lemma_assoc_pos_found(b, k2, a.len() as int);
        }
    } else {
        if p2 >= 0 {
            lemma_assoc_pos_found(b, k2, p2);
        } else {
            lemma_assoc_pos_absent(b, k2);
        }
    }
}

/// The model of a store's scope `id`, looking outward through enclosing scopes.
/// A scope only ever encloses scopes created before it.
pub open spec fn spec_lookup(st: StoreV, id: nat, k: Seq<char>) -> Option<ValueV>
    decreases id,
{
    if id >= st.frames.len() {
        None
    } else {
        match assoc_get(st.frames[id as int].bindings, k) {
            Some(v) => Some(v),
            None => match st.frames[id as int].parent {
                Some(p) => if p < id {
                    spec_lookup(st, p, k)
                } else {
                    None
                },
                None => None,
            },
        }
    }
}

/// The store after binding `k` to `v` in scope `id` (no change when `id` names no scope).
pub open spec fn spec_define(st: StoreV, id: nat, k: Seq<char>, v: ValueV) -> StoreV {
    if id < st.frames.len() {
        StoreV {
            frames: st.frames.update(
                id as int,
                FrameV {
                    bindings: assoc_set(st.frames[id as int].bindings, k, v),
                    parent: st.frames[id as int].parent,
                },
            ),
            tables: st.tables,
        }
    } else {
        st
    }
}

/// The store after creating a new, empty scope enclosed by `parent`.
pub open spec fn spec_new_frame(st: StoreV, parent: Option<nat>) -> StoreV {
    StoreV {
        frames: st.frames.push(FrameV { bindings: Seq::empty(), parent }),
        tables: st.tables,
    }
}

/// The store after creating a new, empty table.
pub open spec fn spec_new_table(st: StoreV) -> StoreV {
    StoreV { frames: st.frames, tables: st.tables.push(Seq::empty()) }
}

/// The entry of table `t` under `k`, if the table exists and has one.
pub open spec fn spec_table_get(st: StoreV, t: nat, k: Seq<char>) -> Option<ValueV> {
    if t < st.tables.len() {
        assoc_get(st.tables[t as int], k)
    } else {
        None
    }
}

/// The store after setting key `k` of table `t` to `v` (no change when `t` names no table).
pub open spec fn spec_table_set(st: StoreV, t: nat, k: Seq<char>, v: ValueV) -> StoreV {
    if t < st.tables.len() {
        StoreV {
            frames: st.frames,
            tables: st.tables.update(t as int, assoc_set(st.tables[t as int], k, v)),
        }
    } else {
        st
    }
}

/// Every scope's bindings and every table have distinct keys.
pub open spec fn store_wf(st: StoreV) -> bool {
    &&& forall|i: int| 0 <= i < st.frames.len() ==> keys_unique(#[trigger] st.frames[i].bindings)
    &&& forall|i: int| 0 <= i < st.tables.len() ==> keys_unique(#[trigger] st.tables[i])
}

/// One scope: its bindings in insertion order and the scope around it.
struct Frame {
    bindings: Vec<(String, Value)>,
    parent: Option<usize>,
}

/// Every scope and every table created while a program runs. Handles
/// ([`Env`], [`TableRef`]) are indexes into it; several values may hold the
/// same handle, and a change through one is seen through all of them.
pub struct Store {
    frames: Vec<Frame>,
    tables: Vec<Vec<(String, Value)>>,
}

/// The model of an association list held in a `Vec`.
pub open spec fn assoc_view(v: Seq<(String, Value)>) -> Assoc {
    v.map_values(|e: (String, Value)| (e.0@, value_view(e.1)))
}

impl Frame {
    spec fn view(&self) -> FrameV {
        FrameV {
            bindings: assoc_view(self.bindings@),
            parent: match self.parent {
                Some(p) => Some(p as nat),
                None => None,
            },
        }
    }
}

impl View for Store {
    type V = StoreV;

    closed spec fn view(&self) -> StoreV {
        StoreV {
            frames: self.frames@.map_values(|f: Frame| f.view()),
            tables: self.tables@.map_values(|t: Vec<(String, Value)>| assoc_view(t@)),
        }
    }
}

/// The position of the first entry with key `k`, if any.
fn find_key(v: &Vec<(String, Value)>, k: &str) -> (r: Option<usize>)
    ensures
        match r {
            Some(i) => i < v@.len() && assoc_pos(assoc_view(v@), k@) == i,
            None => assoc_pos(assoc_view(v@), k@) == -1,
        },
{
    let ghost a = assoc_view(v@);
    let mut i: usize = 0;
    while i < v.len()
        invariant
            i <= v@.len(),
            a == assoc_view(v@),
            forall|j: int| 0 <= j < i ==> a[j].0 != k@,
        decreases v@.len() - i,
    {
        if crate::text::str_eq(v[i].0.as_str(), k) {
            proof {
                lemma_assoc_pos_found(a, k@, i as int);
            }
            return Some(i);
        }
        i = i + 1;
    }
    proof {
        lemma_assoc_pos_absent(a, k@);
    }
    None
}

/// Bind `k` to `val` in an association list, replacing an existing entry in place.
pub fn assoc_insert(v: &mut Vec<(String, Value)>, k: String, val: Value)
    ensures
        assoc_view(final(v)@) == assoc_set(assoc_view(old(v)@), k@, val@),
{
    let ghost k_model = k@;
    let ghost val_model = val@;
    match find_key(v, k.as_str()) {
        Some(i) => {
            v.set(i, (k, val));
            assert(assoc_view(v@) =~= assoc_set(assoc_view(old(v)@), k_model, val_model));
        },
        None => {
            v.push((k, val));
            assert(assoc_view(v@) =~= assoc_set(assoc_view(old(v)@), k_model, val_model));
        },
    }
}

/// A copy of an association list with the same model.
fn copy_assoc(v: &Vec<(String, Value)>) -> (r: Vec<(String, Value)>)
    ensures
        assoc_view(r@) == assoc_view(v@),
{
    let mut out: Vec<(String, Value)> = Vec::new();
    let mut i: usize = 0;
    while i < v.len()
        invariant
            i <= v@.len(),
            out@.len() == i,
            forall|j: int| 0 <= j < i ==> #[trigger] out@[j].0@ == v@[j].0@ && out@[j].1@ == v@[j].1@,
        decreases v@.len() - i,
    {
        out.push((v[i].0.clone(), v[i].1.duplicate()));
        i = i + 1;
    }
    assert(assoc_view(out@) =~= assoc_view(v@));
    out
}

impl Store {
    /// A copy of the whole store with the same model: every scope and table, under the same
    /// handles. A run can be started from the copy while this store stays as it was.
    pub fn duplicate(&self) -> (r: Store)
        ensures
            r@ == self@,
    {
        let mut frames: Vec<Frame> = Vec::new();
        let mut i: usize = 0;
        while i < self.frames.len()
            invariant
                i <= self.frames@.len(),
                frames@.len() == i,
                forall|j: int| 0 <= j < i ==> #[trigger] frames@[j].view() == self.frames@[j].view(),
            decreases self.frames@.len() - i,
        {
            let f = &self.frames[i];
            frames.push(Frame { bindings: copy_assoc(&f.bindings), parent: f.parent });
            i = i + 1;
        }
        let mut tables: Vec<Vec<(String, Value)>> = Vec::new();
        let mut k: usize = 0;
        while k < self.tables.len()
            invariant
                k <= self.tables@.len(),
                tables@.len() == k,
                forall|j: int| 0 <= j < k ==> #[trigger] assoc_view(tables@[j]@) == assoc_view(self.tables@[j]@),
            decreases self.tables@.len() - k,
        {
            tables.push(copy_assoc(&self.tables[k]));
            k = k + 1;
        }
        let r = Store { frames, tables };
        assert(r@.frames =~= self@.frames);
        assert(r@.tables =~= self@.tables);
        r
    }

    /// An empty store: no scopes, no tables.
    pub fn new() -> (r: Store)
        ensures
            r@.frames.len() == 0,
            r@.tables.len() == 0,
    {
        let r = Store { frames: Vec::new(), tables: Vec::new() };
        assert(r@.frames =~= Seq::<FrameV>::empty());
        r
    }

    /// Create a new, empty scope enclosed by `parent`.
    fn push_frame(&mut self, parent: Option<usize>) -> (r: usize)
        ensures
            r == old(self)@.frames.len(),
            final(self)@ == spec_new_frame(
                old(self)@,
                match parent {
                    Some(p) => Some(p as nat),
                    None => None,
                },
            ),
    {
        let r = self.frames.len();
        self.frames.push(Frame { bindings: Vec::new(), parent });
        proof {
            let pm = match parent {
                Some(p) => Some(p as nat),
                None => None,
            };
            assert(assoc_view(Seq::<(String, Value)>::empty()) =~= Seq::empty());
            assert(self@.frames =~= old(self)@.frames.push(FrameV { bindings: Seq::empty(), parent: pm }));
        }
        r
    }

    /// Create a new, empty table.
    pub fn new_table(&mut self) -> (r: TableRef)
        ensures
            r.id == old(self)@.tables.len(),
            final(self)@ == spec_new_table(old(self)@),
    {
        let r = self.tables.len();
        self.tables.push(Vec::new());
        proof {
            assert(assoc_view(Seq::<(String, Value)>::empty()) =~= Seq::empty());
            assert(self@.tables =~= old(self)@.tables.push(Seq::empty()));
            assert(self@.frames =~= old(self)@.frames);
        }
        TableRef { id: r }
    }

    /// Create a new table holding the given entries, which have distinct keys.
    pub fn push_table(&mut self, entries: Vec<(String, Value)>) -> (r: TableRef)
        requires
            keys_unique(assoc_view(entries@)),
        ensures
            r.id == old(self)@.tables.len(),
            final(self)@ == (StoreV {
                frames: old(self)@.frames,
                tables: old(self)@.tables.push(assoc_view(entries@)),
            }),
    {
        let r = self.tables.len();
        let ghost m = assoc_view(entries@);
        self.tables.push(entries);
        proof {
            assert(self@.tables =~= old(self)@.tables.push(m));
            assert(self@.frames =~= old(self)@.frames);
        }
        TableRef { id: r }
    }

    /// Set key `k` of table `t` to `v`.
    pub fn table_set(&mut self, t: TableRef, k: String, v: Value)
        ensures
            final(self)@ == spec_table_set(old(self)@, t.id as nat, k@, v@),
    {
        if t.id < self.tables.len() {
            let ghost km = k@;
            let ghost vm = v@;
            let entries = &mut self.tables[t.id];
            assoc_insert(entries, k, v);
            proof {
                assert(self@.tables =~= old(self)@.tables.update(
                    t.id as int,
                    assoc_set(old(self)@.tables[t.id as int], km, vm),
                ));
                assert(self@.frames =~= old(self)@.frames);
            }
        }
    }

    /// The entry of table `t` under `k`, copied out.
    pub fn table_get(&self, t: TableRef, k: &str) -> (r: Option<Value>)
        ensures
            match r {
                Some(v) => spec_table_get(self@, t.id as nat, k@) == Some(v@),
                None => spec_table_get(self@, t.id as nat, k@) is None,
            },
    {
        if t.id < self.tables.len() {
            let entries = &self.tables[t.id];
            match find_key(entries, k) {
                Some(i) => Some(entries[i].1.duplicate()),
                None => None,
            }
        } else {
            None
        }
    }

    /// Whether table `t` exists.
    pub fn has_table(&self, t: TableRef) -> (r: bool)
        ensures
            r == (t.id < self@.tables.len()),
    {
        t.id < self.tables.len()
    }

    /// The keys of table `t`, in insertion order (none when `t` names no table).
    pub fn table_keys(&self, t: TableRef) -> (r: Vec<String>)
        ensures
            t.id < self@.tables.len() ==> crate::value::string_views(r@) == assoc_keys(
                self@.tables[t.id as int],
            ),
            t.id >= self@.tables.len() ==> r@.len() == 0,
    {
        let mut out: Vec<String> = Vec::new();
        if t.id < self.tables.len() {
            let entries = &self.tables[t.id];
            let ghost a = assoc_view(entries@);
            let mut i: usize = 0;
            while i < entries.len()
                invariant
                    i <= entries@.len(),
                    a == assoc_view(entries@),
                    out@.len() == i,
                    forall|j: int| 0 <= j < i ==> #[trigger] out@[j]@ == a[j].0,
                decreases entries@.len() - i,
            {
                out.push(entries[i].0.clone());
                i = i + 1;
            }
            assert(crate::value::string_views(out@) =~= assoc_keys(a));
        }
        out
    }

    /// The entries of table `t` whose values are strings, in insertion order.
    pub fn table_string_entries(&self, t: TableRef) -> (r: Vec<(String, String)>)
        ensures
            t.id < self@.tables.len() ==> string_entries_view(r@) == string_entries(
                self@.tables[t.id as int],
            ),
            t.id >= self@.tables.len() ==> r@.len() == 0,
    {
        let mut out: Vec<(String, String)> = Vec::new();
        if t.id < self.tables.len() {
            let entries = &self.tables[t.id];
            let ghost a = assoc_view(entries@);
            let mut i: usize = 0;
            while i < entries.len()
                invariant
                    i <= entries@.len(),
                    a == assoc_view(entries@),
                    string_entries_view(out@) == string_entries(a.take(i as int)),
                decreases entries@.len() - i,
            {
                proof {
                    assert(a.take(i + 1).drop_last() =~= a.take(i as int));
                }
                let ghost before = out@;
                match &entries[i].1 {
                    Value::Str(s) => {
                        out.push((entries[i].0.clone(), s.clone()));
                        assert(string_entries_view(out@) =~= string_entries_view(before).push(
                            (entries@[i as int].0@, s@),
                        ));
                    },
                    _ => {},
                }
                i = i + 1;
            }
            assert(a.take(entries@.len() as int) =~= a);
        }
        out
    }
}

/// The entries of `a` whose values are strings, as pairs of strings.
pub open spec fn string_entries(a: Assoc) -> Seq<(Seq<char>, Seq<char>)>
    decreases a.len(),
{
    if a.len() == 0 {
        Seq::empty()
    } else {
        let rest = string_entries(a.drop_last());
        match a.last().1 {
            ValueV::Str(s) => rest.push((a.last().0, s)),
            _ => rest,
        }
    }
}

/// The model of a list of string pairs.
pub open spec fn string_entries_view(v: Seq<(String, String)>) -> Seq<(Seq<char>, Seq<char>)> {
    v.map_values(|e: (String, String)| (e.0@, e.1@))
}

impl Env {
    /// Create a new top-level scope with no bindings.
    pub fn new(store: &mut Store) -> (r: Env)
        ensures
            r.id == old(store)@.frames.len(),
            r.id < final(store)@.frames.len(),
            final(store)@ == spec_new_frame(old(store)@, None),
    {
        let id = store.push_frame(None);
        Env { id }
    }

    /// Create a new scope, with no bindings of its own, enclosed by this one.
    pub fn child(&self, store: &mut Store) -> (r: Env)
        ensures
            r.id == old(store)@.frames.len(),
            r.id < final(store)@.frames.len(),
            final(store)@ == spec_new_frame(old(store)@, Some(self.id as nat)),
    {
        let id = store.push_frame(Some(self.id));
        Env { id }
    }

    /// Bind `name` to `value` in this scope, replacing a binding of the same name.
    pub fn define(&self, store: &mut Store, name: String, value: Value)
        ensures
            final(store)@ == spec_define(old(store)@, self.id as nat, name@, value@),
    {
        if self.id < store.frames.len() {
            let ghost km = name@;
            let ghost vm = value@;
            let frame = &mut store.frames[self.id];
            assoc_insert(&mut frame.bindings, name, value);
            proof {
                let old_frame = old(store)@.frames[self.id as int];
                assert(store@.frames =~= old(store)@.frames.update(
                    self.id as int,
                    FrameV { bindings: assoc_set(old_frame.bindings, km, vm), parent: old_frame.parent },
                ));
                assert(store@.tables =~= old(store)@.tables);
            }
        }
    }

    /// The value bound to `name` in this scope or the nearest enclosing one that binds it.
    pub fn lookup(&self, store: &Store, name: &str) -> (r: Option<Value>)
        ensures
            match r {
                Some(v) => spec_lookup(store@, self.id as nat, name@) == Some(v@),
                None => spec_lookup(store@, self.id as nat, name@) is None,
            },
        decreases self.id,
    {
        if self.id >= store.frames.len() {
            return None;
        }
        let frame = &store.frames[self.id];
        match find_key(&frame.bindings, name) {
            Some(i) => Some(frame.bindings[i].1.duplicate()),
            None => match frame.parent {
                Some(p) => {
                    if p < self.id {
                        Env { id: p }.lookup(store, name)
                    } else {
                        None
                    }
                },
                None => None,
            },
        }
    }
}

} // verus!

verus! {

/// Law: after `define` of `k` in an existing scope, looking `k` up from that scope gives the
/// defined value.
pub proof fn law_define_then_lookup(st: StoreV, id: nat, k: Seq<char>, v: ValueV)
    requires
        id < st.frames.len(),
    ensures
        spec_lookup(spec_define(st, id, k, v), id, k) == Some(v),
{
    lemma_assoc_set_get(st.frames[id as int].bindings, k, v, k);
}

/// Law: `define` of one name changes the lookup of no other name, from any scope.
pub proof fn law_define_other_name(st: StoreV, id: nat, k: Seq<char>, v: ValueV, id2: nat, k2: Seq<char>)
    requires
        k2 != k,
    ensures
        spec_lookup(spec_define(st, id, k, v), id2, k2) == spec_lookup(st, id2, k2),
    decreases id2,
{
    let st2 = spec_define(st, id, k, v);
    if id2 < st.frames.len() {
        if id < st.frames.len() {
            lemma_assoc_set_get(st.frames[id as int].bindings, k, v, k2);
        }
        assert(assoc_get(st2.frames[id2 as int].bindings, k2) == assoc_get(
            st.frames[id2 as int].bindings,
            k2,
        ));
        match st.frames[id2 as int].parent {
            Some(p) => {
                if p < id2 {
                    law_define_other_name(st, id, k, v, p, k2);
                }
            },
            None => {},
        }
    }
}

/// Law: a scope created after another one is never looked into from it, so a `define` there
/// changes no lookup from the earlier scope (a child's bindings shadow, but never leak outward).
pub proof fn law_define_in_later_scope(st: StoreV, id: nat, k: Seq<char>, v: ValueV, id2: nat, k2: Seq<char>)
    requires
        id2 < id,
    ensures
        spec_lookup(spec_define(st, id, k, v), id2, k2) == spec_lookup(st, id2, k2),
    decreases id2,
{
    let st2 = spec_define(st, id, k, v);
    if id2 < st.frames.len() {
        assert(st2.frames[id2 as int] == st.frames[id2 as int]);
        match st.frames[id2 as int].parent {
            Some(p) => {
                if p < id2 {
                    law_define_in_later_scope(st, id, k, v, p, k2);
                }
            },
            None => {},
        }
    }
}

/// Creating a scope changes no lookup from the scopes that already exist.
pub proof fn lemma_new_frame_keeps_lookup(st: StoreV, parent: Option<nat>, id2: nat, k: Seq<char>)
    requires
        id2 < st.frames.len(),
    ensures
        spec_lookup(spec_new_frame(st, parent), id2, k) == spec_lookup(st, id2, k),
    decreases id2,
{
    let st2 = spec_new_frame(st, parent);
    assert(st2.frames[id2 as int] == st.frames[id2 as int]);
    match st.frames[id2 as int].parent {
        Some(p) => {
            if p < id2 {
                lemma_new_frame_keeps_lookup(st, parent, p, k);
            }
        },
        None => {},
    }
}

/// Law: a new child scope sees exactly what its parent sees, and creating it changes no
/// lookup from existing scopes.
pub proof fn law_child_sees_parent(st: StoreV, p: nat, k: Seq<char>)
    requires
        p < st.frames.len(),
    ensures
        spec_lookup(spec_new_frame(st, Some(p)), st.frames.len(), k) == spec_lookup(st, p, k),
        forall|id2: nat| id2 < st.frames.len() ==> #[trigger] spec_lookup(
            spec_new_frame(st, Some(p)),
            id2,
            k,
        ) == spec_lookup(st, id2, k),
{
    let st2 = spec_new_frame(st, Some(p));
    lemma_assoc_pos(Seq::<(Seq<char>, ValueV)>::empty(), k);
    assert(assoc_get(st2.frames[st.frames.len() as int].bindings, k) is None);
    lemma_new_frame_keeps_lookup(st, Some(p), p, k);
    assert forall|id2: nat| id2 < st.frames.len() implies #[trigger] spec_lookup(
        spec_new_frame(st, Some(p)),
        id2,
        k,
    ) == spec_lookup(st, id2, k) by {
        lemma_new_frame_keeps_lookup(st, Some(p), id2, k);
    }
}

/// Law: a new top-level scope binds nothing.
pub proof fn law_new_scope_is_empty(st: StoreV, k: Seq<char>)
    ensures
        spec_lookup(spec_new_frame(st, None), st.frames.len(), k) is None,
{
    lemma_assoc_pos(Seq::<(Seq<char>, ValueV)>::empty(), k);
}

/// Law: after setting key `k` of an existing table, reading `k` gives the new value and every
/// other key reads as before; other tables are unchanged.
pub proof fn law_table_set_then_get(st: StoreV, t: nat, k: Seq<char>, v: ValueV, t2: nat, k2: Seq<char>)
    requires
        t < st.tables.len(),
    ensures
        spec_table_get(spec_table_set(st, t, k, v), t2, k2) == (if t2 == t && k2 == k {
            Some(v)
        } else {
            spec_table_get(st, t2, k2)
        }),
{
    lemma_assoc_set_get(st.tables[t as int], k, v, k2);
}

/// Law: every store operation keeps keys distinct within each scope and each table.
pub proof fn law_store_ops_keep_wf(st: StoreV, id: nat, parent: Option<nat>, k: Seq<char>, v: ValueV)
    requires
        store_wf(st),
    ensures
        store_wf(spec_define(st, id, k, v)),
        store_wf(spec_table_set(st, id, k, v)),
        store_wf(spec_new_frame(st, parent)),
        store_wf(spec_new_table(st)),
{
    if id < st.frames.len() {
        lemma_assoc_set_get(st.frames[id as int].bindings, k, v, k);
        let st2 = spec_define(st, id, k, v);
        assert forall|i: int| 0 <= i < st2.frames.len() implies keys_unique(
            #[trigger] st2.frames[i].bindings,
        ) by {
            if i != id {
                assert(st2.frames[i] == st.frames[i]);
            }
        }
    }
    if id < st.tables.len() {
        lemma_assoc_set_get(st.tables[id as int], k, v, k);
        let st3 = spec_table_set(st, id, k, v);
        assert forall|i: int| 0 <= i < st3.tables.len() implies keys_unique(
            #[trigger] st3.tables[i],
        ) by {
            if i != id {
                assert(st3.tables[i] == st.tables[i]);
            }
        }
    }
    let st4 = spec_new_frame(st, parent);
    assert forall|i: int| 0 <= i < st4.frames.len() implies keys_unique(
        #[trigger] st4.frames[i].bindings,
    ) by {
        if i < st.frames.len() {
            assert(st4.frames[i] == st.frames[i]);
        }
    }
    let st5 = spec_new_table(st);
    assert forall|i: int| 0 <= i < st5.tables.len() implies keys_unique(#[trigger] st5.tables[i]) by {
        if i < st.tables.len() {
            assert(st5.tables[i] == st.tables[i]);
        }
    }
}

/// Law: adding a table whose keys are distinct keeps every scope and table free of repeated
/// keys.
pub proof fn law_push_table_keeps_wf(st: StoreV, entries: Assoc)
    requires
        store_wf(st),
        keys_unique(entries),
    ensures
        store_wf(StoreV { frames: st.frames, tables: st.tables.push(entries) }),
{
    let st2 = StoreV { frames: st.frames, tables: st.tables.push(entries) };
    assert forall|i: int| 0 <= i < st2.tables.len() implies keys_unique(#[trigger] st2.tables[i]) by {
        if i < st.tables.len() {
            assert(st2.tables[i] == st.tables[i]);
        }
    }
}

/// Law: a scope handle stays valid: no store operation removes a scope, so a handle that
/// names a scope (as every handle `Env::new` and `Env::child` give back does) names one after
/// any `define`, table change or new scope.
pub proof fn law_handles_stay_valid(st: StoreV, id: nat, id2: nat, parent: Option<nat>, k: Seq<char>, v: ValueV)
    requires
        id < st.frames.len(),
    ensures
        id < spec_define(st, id2, k, v).frames.len(),
        id < spec_table_set(st, id2, k, v).frames.len(),
        id < spec_new_frame(st, parent).frames.len(),
        id < spec_new_table(st).frames.len(),
{
}

/// Law: a scope shares its enclosing scope rather than copying it: a name the child does not
/// bind itself, defined later in the parent, is seen from the child.
pub proof fn law_child_sees_parent_define(st: StoreV, child: nat, p: nat, m: Seq<char>, w: ValueV)
    requires
        p < child < st.frames.len(),
        st.frames[child as int].parent == Some(p),
        assoc_get(st.frames[child as int].bindings, m) is None,
    ensures
        spec_lookup(spec_define(st, p, m, w), child, m) == Some(w),
{
    let st2 = spec_define(st, p, m, w);
    assert(st2.frames[child as int] == st.frames[child as int]);
    law_define_then_lookup(st, p, m, w);
}

} // verus!
