//! Loader-scoped class identity: which class a (defining loader, name) pair
//! denotes, which loaders initiated a lookup, and what each class id stands
//! for.

use vstd::prelude::*;
use std::collections::HashMap;
use crate::descriptors::{replace_char, replaced};
use crate::text::str_eq;

verus! {

broadcast use vstd::std_specs::hash::group_hash_axioms;

/// VM-internal identity for a defining or initiating class loader: the
/// bootstrap loader (0), the system loader (1), or a loader created at run
/// time (numbered from 2 on).
#[allow(non_camel_case_types)]
#[derive(Clone, Copy, Debug, Eq, Hash, PartialEq, Structural)]
pub enum LoaderId {
    BOOTSTRAP,
    SYSTEM,
    Other(u64),
}

impl LoaderId {
    /// The loader with the given number.
    pub fn new(id: u64) -> (l: Self)
        ensures
            l.id() == id,
            l.canonical(),
    {
        if id == 0 {
            LoaderId::BOOTSTRAP
        } else if id == 1 {
            LoaderId::SYSTEM
        } else {
            LoaderId::Other(id)
        }
    }

    /// The number of this loader.
    pub open spec fn id(self) -> u64 {
        match self {
            LoaderId::BOOTSTRAP => 0,
            LoaderId::SYSTEM => 1,
            LoaderId::Other(n) => n,
        }
    }

    /// Built-in numbers are only written with their own names.
    pub open spec fn canonical(self) -> bool {
        self matches LoaderId::Other(n) ==> n >= 2
    }
}

/// VM-internal handle for a class identity record.
#[derive(Clone, Copy, Debug, Eq, Hash, PartialEq, Structural)]
pub struct ClassId(u64);

impl ClassId {
    fn new(id: u64) -> (c: Self)
        ensures
            c.id() == id,
    {
        Self(id)
    }

    /// The number of this class id.
    pub closed spec fn id(self) -> u64 {
        self.0
    }
}

/// The class id with number `n`.
pub closed spec fn class_id(n: u64) -> ClassId {
    ClassId(n)
}

/// A class id is determined by its number.
pub broadcast proof fn lemma_class_id_number(n: u64, c: ClassId)
    ensures
        #[trigger] class_id(n).id() == n,
        (c == class_id(n)) <==> (#[trigger] c.id() == n),
{
}

/// What a class id stands for.
#[derive(Debug)]
pub struct ClassRecord {
    pub internal_name: String,
    pub binary_name: String,
    pub defining_loader: LoaderId,
}

/// A class record as a value.
pub struct ClassRecordV {
    pub internal_name: Seq<char>,
    pub binary_name: Seq<char>,
    pub defining_loader: LoaderId,
}

impl View for ClassRecord {
    type V = ClassRecordV;

    open spec fn view(&self) -> ClassRecordV {
        ClassRecordV {
            internal_name: self.internal_name@,
            binary_name: self.binary_name@,
            defining_loader: self.defining_loader,
        }
    }
}

/// The registry as a value: the class defined under each (defining loader,
/// internal name), the record of each class id, the class found under each
/// (initiating loader, lookup name), and the next fresh class id.
pub struct RegistryV {
    pub defined: Map<(LoaderId, Seq<char>), ClassId>,
    pub records: Map<ClassId, ClassRecordV>,
    pub initiating: Map<(LoaderId, Seq<char>), ClassId>,
    pub next_class_id: u64,
}

/// The binary name for an internal name (`pkg/Thing` → `pkg.Thing`).
pub open spec fn binary_name_of(internal_name: Seq<char>) -> Seq<char> {
    replace_char(internal_name, '/', '.')
}

/// Why `ClassLoader#defineClass` refused a definition.
#[derive(Clone, Copy, Debug, Eq, PartialEq, Structural)]
pub enum DefineClassError {
    Duplicate(ClassId),
}

/// Loader-owned class identity records for defining and initiating loaders.
///
/// Class id `i` is the `i`-th record; lookups find the first entry with the
/// key.
#[derive(Debug)]
pub struct ClassIdentityRegistry {
    records: Vec<ClassRecord>,
    initiating_classes: Vec<(LoaderId, String, ClassId)>,
    next_class_id: u64,
}

/// Position of the first record defined by `l` under the name `n`, from `i` on.
pub open spec fn find_record(s: Seq<ClassRecordV>, l: LoaderId, n: Seq<char>, i: int) -> Option<int>
    decreases s.len() - i,
{
    if i < 0 || i >= s.len() {
        None
    } else if s[i].defining_loader == l && s[i].internal_name == n {
        Some(i)
    } else {
        find_record(s, l, n, i + 1)
    }
}

/// Position of the first initiating entry with key `(l, n)`, from `i` on.
pub open spec fn find_initiating(
    s: Seq<(LoaderId, Seq<char>, ClassId)>,
    l: LoaderId,
    n: Seq<char>,
    i: int,
) -> Option<int>
    decreases s.len() - i,
{
    if i < 0 || i >= s.len() {
        None
    } else if s[i].0 == l && s[i].1 == n {
        Some(i)
    } else {
        find_initiating(s, l, n, i + 1)
    }
}

/// The registry after registering `n` under the defining loader `l`, and
/// the class id it gives.
pub open spec fn registered(s: RegistryV, l: LoaderId, n: Seq<char>) -> (RegistryV, ClassId) {
    if s.defined.contains_key((l, n)) {
        (s, s.defined[(l, n)])
    } else {
        let id = class_id(s.next_class_id);
        (
            RegistryV {
                defined: s.defined.insert((l, n), id),
                records: s.records.insert(
                    id,
                    ClassRecordV { internal_name: n, binary_name: binary_name_of(n), defining_loader: l },
                ),
                initiating: s.initiating,
                next_class_id: (s.next_class_id + 1) as u64,
            },
            id,
        )
    }
}

/// The registry after recording that `l` found `c` under the name `n`.
pub open spec fn initiated(s: RegistryV, l: LoaderId, n: Seq<char>, c: ClassId) -> RegistryV {
    RegistryV { initiating: s.initiating.insert((l, n), c), ..s }
}

/// Registry consistency: every defined class has a record that names it,
/// and every class id with a record is below the next fresh id.
pub open spec fn registry_wf(s: RegistryV) -> bool {
    &&& forall|k: (LoaderId, Seq<char>)| #[trigger]
        s.defined.contains_key(k) ==> s.records.contains_key(s.defined[k])
            && s.records[s.defined[k]].defining_loader == k.0 && s.records[s.defined[k]].internal_name
            == k.1
    &&& forall|c: ClassId| #[trigger] s.records.contains_key(c) ==> c.id() < s.next_class_id
}

impl ClassIdentityRegistry {
    spec fn record_views(&self) -> Seq<ClassRecordV> {
        self.records@.map_values(|r: ClassRecord| r@)
    }

    spec fn initiating_views(&self) -> Seq<(LoaderId, Seq<char>, ClassId)> {
        self.initiating_classes@.map_values(|e: (LoaderId, String, ClassId)| (e.0, e.1@, e.2))
    }

    /// The representation is consistent: one record per class id issued.
    pub closed spec fn wf(&self) -> bool {
        &&& self.next_class_id == self.records@.len()
        &&& forall|i: int|
            0 <= i < self.records@.len() ==> #[trigger] self.records@[i].binary_name@ == binary_name_of(
                self.records@[i].internal_name@,
            )
    }
}

impl View for ClassIdentityRegistry {
    type V = RegistryV;

    closed spec fn view(&self) -> RegistryV {
        let recs = self.record_views();
        let inits = self.initiating_views();
        RegistryV {
            defined: Map::new(
                |k: (LoaderId, Seq<char>)| find_record(recs, k.0, k.1, 0) is Some,
                |k: (LoaderId, Seq<char>)| ClassId(find_record(recs, k.0, k.1, 0).unwrap() as u64),
            ),
            records: Map::new(|c: ClassId| c.0 < recs.len(), |c: ClassId| recs[c.0 as int]),
            initiating: Map::new(
                |k: (LoaderId, Seq<char>)| find_initiating(inits, k.0, k.1, 0) is Some,
                |k: (LoaderId, Seq<char>)| inits[find_initiating(inits, k.0, k.1, 0).unwrap()].2,
            ),
            next_class_id: self.next_class_id,
        }
    }
}

proof fn lemma_find_record_push(s: Seq<ClassRecordV>, x: ClassRecordV, l: LoaderId, n: Seq<char>, i: int)
    requires
        0 <= i <= s.len(),
    ensures
        find_record(s.push(x), l, n, i) == match find_record(s, l, n, i) {
            Some(j) => Some(j),
            None => if x.defining_loader == l && x.internal_name == n {
                Some(s.len() as int)
            } else {
                None
            },
        },
    decreases s.len() - i,
{
    if i < s.len() {
        assert(s.push(x)[i] == s[i]);
        lemma_find_record_push(s, x, l, n, i + 1);
    } else {
        assert(s.push(x)[i] == x);
        assert(find_record(s.push(x), l, n, i + 1) is None);
    }
}

proof fn lemma_find_record_range(s: Seq<ClassRecordV>, l: LoaderId, n: Seq<char>, i: int)
    ensures
        find_record(s, l, n, i) matches Some(j) ==> i <= j < s.len() && s[j].defining_loader == l
            && s[j].internal_name == n,
    decreases s.len() - i,
{
    if 0 <= i < s.len() {
        lemma_find_record_range(s, l, n, i + 1);
    }
}

proof fn lemma_find_initiating_push(
    s: Seq<(LoaderId, Seq<char>, ClassId)>,
    x: (LoaderId, Seq<char>, ClassId),
    l: LoaderId,
    n: Seq<char>,
    i: int,
)
    requires
        0 <= i <= s.len(),
    ensures
        find_initiating(s.push(x), l, n, i) == match find_initiating(s, l, n, i) {
            Some(j) => Some(j),
            None => if x.0 == l && x.1 == n {
                Some(s.len() as int)
            } else {
                None
            },
        },
    decreases s.len() - i,
{
    if i < s.len() {
        assert(s.push(x)[i] == s[i]);
        lemma_find_initiating_push(s, x, l, n, i + 1);
    } else {
        assert(s.push(x)[i] == x);
        assert(find_initiating(s.push(x), l, n, i + 1) is None);
    }
}

proof fn lemma_find_initiating_same_keys(
    s: Seq<(LoaderId, Seq<char>, ClassId)>,
    t: Seq<(LoaderId, Seq<char>, ClassId)>,
    l: LoaderId,
    n: Seq<char>,
    i: int,
)
    requires
        s.len() == t.len(),
        forall|k: int| 0 <= k < s.len() ==> (#[trigger] s[k]).0 == t[k].0 && s[k].1 == t[k].1,
    ensures
        find_initiating(s, l, n, i) == find_initiating(t, l, n, i),
        find_initiating(s, l, n, i) matches Some(j) ==> i <= j < s.len() && s[j].0 == l && s[j].1
            == n,
    decreases s.len() - i,
{
    if 0 <= i < s.len() {
        lemma_find_initiating_same_keys(s, t, l, n, i + 1);
    }
}

/// The binary name for an internal name (`pkg/Thing` → `pkg.Thing`).
fn binary_name_from_internal_name(internal_name: &str) -> (name: String)
    ensures
        name@ == binary_name_of(internal_name@),
{
    replaced(internal_name, '/', '.')
}

impl ClassIdentityRegistry {
    /// An empty registry.
    pub fn new() -> (r: Self)
        ensures
            r.wf(),
            r@.defined == Map::<(LoaderId, Seq<char>), ClassId>::empty(),
            r@.records == Map::<ClassId, ClassRecordV>::empty(),
            r@.initiating == Map::<(LoaderId, Seq<char>), ClassId>::empty(),
            r@.next_class_id == 0,
    {
        let r = Self { records: Vec::new(), initiating_classes: Vec::new(), next_class_id: 0 };
        proof {
            assert(r@.defined =~= Map::<(LoaderId, Seq<char>), ClassId>::empty());
            assert(r@.records =~= Map::<ClassId, ClassRecordV>::empty());
            assert(r@.initiating =~= Map::<(LoaderId, Seq<char>), ClassId>::empty());
        }
        r
    }

    /// Position of the record defined by `l` under `name`.
    fn find_defined(&self, l: LoaderId, name: &str) -> (res: Option<usize>)
        ensures
            match res {
                Some(j) => find_record(self.record_views(), l, name@, 0) == Some(j as int),
                None => find_record(self.record_views(), l, name@, 0) is None,
            },
    {
        let ghost recs = self.record_views();
        let mut i: usize = 0;
        while i < self.records.len()
            invariant
                recs == self.record_views(),
                i <= self.records@.len(),
                find_record(recs, l, name@, 0) == find_record(recs, l, name@, i as int),
            decreases self.records@.len() - i,
        {
            let r = &self.records[i];
            if r.defining_loader == l && str_eq(r.internal_name.as_str(), name) {
                return Some(i);
            }
            i = i + 1;
        }
        None
    }

    /// Position of the initiating entry for `l` and `name`.
    fn find_initiated(&self, l: LoaderId, name: &str) -> (res: Option<usize>)
        ensures
            match res {
                Some(j) => find_initiating(self.initiating_views(), l, name@, 0) == Some(j as int),
                None => find_initiating(self.initiating_views(), l, name@, 0) is None,
            },
    {
        let ghost inits = self.initiating_views();
        let mut i: usize = 0;
        while i < self.initiating_classes.len()
            invariant
                inits == self.initiating_views(),
                i <= self.initiating_classes@.len(),
                find_initiating(inits, l, name@, 0) == find_initiating(inits, l, name@, i as int),
            decreases self.initiating_classes@.len() - i,
        {
            let e = &self.initiating_classes[i];
            if e.0 == l && str_eq(e.1.as_str(), name) {
                return Some(i);
            }
            i = i + 1;
        }
        None
    }

    /// Adds a record for a class that is not yet defined; returns its id.
    fn define_new(&mut self, defining_loader: LoaderId, internal_name: &str) -> (id: ClassId)
        requires
            old(self).wf(),
            !old(self)@.defined.contains_key((defining_loader, internal_name@)),
            old(self)@.next_class_id < u64::MAX,
        ensures
            final(self).wf(),
            (final(self)@, id) == registered(old(self)@, defining_loader, internal_name@),
    {
        let ghost recs = self.record_views();
        let ghost old_view = self@;
        let class_id = ClassId::new(self.next_class_id);
        let record = ClassRecord {
            binary_name: binary_name_from_internal_name(internal_name),
            internal_name: internal_name.to_owned(),
            defining_loader,
        };
        self.records.push(record);
        self.next_class_id = self.next_class_id + 1;
        proof {
            let recs2 = self.record_views();
            assert(recs2 =~= recs.push(record@));
            assert forall|k: (LoaderId, Seq<char>)| true implies find_record(recs2, k.0, k.1, 0) == match find_record(
                recs,
                k.0,
                k.1,
                0,
            ) {
                Some(j) => Some(j),
                None => if record@.defining_loader == k.0 && record@.internal_name == k.1 {
                    Some(recs.len() as int)
                } else {
                    None
                },
            } by {
                lemma_find_record_push(recs, record@, k.0, k.1, 0);
            }
            let (new_view, new_id) = registered(old_view, defining_loader, internal_name@);
            assert(self@.defined =~= new_view.defined);
            assert(self@.records =~= new_view.records);
            assert(self@.initiating =~= new_view.initiating);
            assert forall|i: int|
                0 <= i < self.records@.len() implies #[trigger] self.records@[i].binary_name@
                == binary_name_of(self.records@[i].internal_name@) by {
                if i == recs.len() {
                } else {
                    assert(self.records@[i] == old(self).records@[i]);
                }
            }
        }
        class_id
    }

    /// Register class identity for normal load paths.
    ///
    /// This is intentionally idempotent: repeated loads of the same binary name
    /// by the same defining loader must reuse the existing ClassId. Use
    /// `try_register_defined_class` for `ClassLoader#defineClass`, where a
    /// duplicate definition is a Java-visible LinkageError.
    pub fn register_defined_class(&mut self, defining_loader: LoaderId, internal_name: &str) -> (id: ClassId)
        requires
            old(self).wf(),
            old(self)@.next_class_id < u64::MAX || old(self)@.defined.contains_key((defining_loader, internal_name@)),
        ensures
            final(self).wf(),
            (final(self)@, id) == registered(old(self)@, defining_loader, internal_name@),
    {
        match self.find_defined(defining_loader, internal_name) {
            Some(j) => {
                proof {
                    lemma_find_record_range(self.record_views(), defining_loader, internal_name@, 0);
                }
                ClassId::new(j as u64)
            },
            None => self.define_new(defining_loader, internal_name),
        }
    }

    /// Register class identity for `ClassLoader#defineClass`: a second
    /// definition of the same name by the same loader is refused with the
    /// existing id.
    pub fn try_register_defined_class(&mut self, defining_loader: LoaderId, internal_name: &str) -> (res: Result<ClassId, DefineClassError>)
        requires
            old(self).wf(),
            old(self)@.next_class_id < u64::MAX || old(self)@.defined.contains_key((defining_loader, internal_name@)),
        ensures
            final(self).wf(),
            old(self)@.defined.contains_key((defining_loader, internal_name@)) ==> res == Err::<
                ClassId,
                DefineClassError,
            >(DefineClassError::Duplicate(old(self)@.defined[(defining_loader, internal_name@)]))
                && final(self)@ == old(self)@,
            !old(self)@.defined.contains_key((defining_loader, internal_name@)) ==> res == Ok::<
                ClassId,
                DefineClassError,
            >(registered(old(self)@, defining_loader, internal_name@).1) && final(self)@ == registered(
                old(self)@,
                defining_loader,
                internal_name@,
            ).0,
    {
        match self.find_defined(defining_loader, internal_name) {
            Some(j) => {
                proof {
                    lemma_find_record_range(self.record_views(), defining_loader, internal_name@, 0);
                }
                Err(DefineClassError::Duplicate(ClassId::new(j as u64)))
            },
            None => Ok(self.define_new(defining_loader, internal_name)),
        }
    }

    /// Record that `initiating_loader` found `class_id` under `lookup_name`
    /// (replacing what it found before under that name).
    pub fn record_initiating_loader(&mut self, initiating_loader: LoaderId, lookup_name: &str, class_id: ClassId)
        requires
            old(self).wf(),
        ensures
            final(self).wf(),
            final(self)@ == initiated(old(self)@, initiating_loader, lookup_name@, class_id),
    {
        let ghost inits = self.initiating_views();
        let ghost key = (initiating_loader, lookup_name@);
        match self.find_initiated(initiating_loader, lookup_name) {
            Some(j) => {
                proof {
                    lemma_find_initiating_same_keys(inits, inits, initiating_loader, lookup_name@, 0);
                }
                let name = self.initiating_classes[j].1.clone();
                self.initiating_classes.set(j, (initiating_loader, name, class_id));
                proof {
                    let inits2 = self.initiating_views();
                    lemma_find_initiating_same_keys(inits, inits, initiating_loader, lookup_name@, 0);
                    assert(inits2 =~= inits.update(j as int, (initiating_loader, inits[j as int].1, class_id)));
                    let target = old(self)@.initiating.insert(key, class_id);
                    assert forall|k: (LoaderId, Seq<char>)|
                        #![trigger self@.initiating.contains_key(k)]
                        #![trigger target.contains_key(k)]
                        (self@.initiating.contains_key(k) <==> target.contains_key(k))
                            && (self@.initiating.contains_key(k) ==> self@.initiating[k] == target[k]) by {
                        lemma_find_initiating_same_keys(inits2, inits, k.0, k.1, 0);
                        lemma_find_initiating_same_keys(inits, inits, k.0, k.1, 0);
                        if k == key {
                            assert(inits2[j as int].2 == class_id);
                        } else {
                            match find_initiating(inits, k.0, k.1, 0) {
                                Some(m) => {
                                    assert(m != j);
                                    assert(inits2[m] == inits[m]);
                                },
                                None => {},
                            }
                        }
                    }
                    assert(self@.initiating =~= target);
                    assert(self@.defined =~= old(self)@.defined);
                    assert(self@.records =~= old(self)@.records);
                }
            },
            None => {
                let e = (initiating_loader, lookup_name.to_owned(), class_id);
                self.initiating_classes.push(e);
                proof {
                    let inits2 = self.initiating_views();
                    let x = (e.0, e.1@, e.2);
                    assert(inits2 =~= inits.push(x));
                    let target = old(self)@.initiating.insert(key, class_id);
                    assert forall|k: (LoaderId, Seq<char>)|
                        #![trigger self@.initiating.contains_key(k)]
                        #![trigger target.contains_key(k)]
                        (self@.initiating.contains_key(k) <==> target.contains_key(k))
                            && (self@.initiating.contains_key(k) ==> self@.initiating[k] == target[k]) by {
                        lemma_find_initiating_push(inits, x, k.0, k.1, 0);
                        lemma_find_initiating_same_keys(inits, inits, k.0, k.1, 0);
                        if k == key {
                            assert(inits2[inits.len() as int] == x);
                        } else {
                            match find_initiating(inits, k.0, k.1, 0) {
                                Some(m) => {
                                    assert(inits2[m] == inits[m]);
                                },
                                None => {},
                            }
                        }
                    }
                    assert(self@.initiating =~= target);
                    assert(self@.defined =~= old(self)@.defined);
                    assert(self@.records =~= old(self)@.records);
                }
            },
        }
    }

    /// The number the next newly defined class gets.
    pub fn next_class_id(&self) -> (n: u64)
        ensures
            n == self@.next_class_id,
    {
        self.next_class_id
    }

    /// The class that `defining_loader` defined under `internal_name`.
    pub fn class_id_for_defined(&self, defining_loader: LoaderId, internal_name: &str) -> (res: Option<ClassId>)
        ensures
            res == (if self@.defined.contains_key((defining_loader, internal_name@)) {
                Some(self@.defined[(defining_loader, internal_name@)])
            } else {
                None
            }),
    {
        match self.find_defined(defining_loader, internal_name) {
            Some(j) => {
                let c = ClassId::new(j as u64);
                proof {
                    let recs = self.record_views();
                    let k = (defining_loader, internal_name@);
                    assert(find_record(recs, k.0, k.1, 0) == Some(j as int));
                    assert(self@.defined.contains_key(k));
                    assert(self@.defined[k] == ClassId(j as u64));
                    assert(c == ClassId(j as u64));
                }
                Some(c)
            },
            None => None,
        }
    }

    /// The class that `initiating_loader` found under `lookup_name`.
    pub fn class_id_for_initiating(&self, initiating_loader: LoaderId, lookup_name: &str) -> (res: Option<ClassId>)
        ensures
            res == (if self@.initiating.contains_key((initiating_loader, lookup_name@)) {
                Some(self@.initiating[(initiating_loader, lookup_name@)])
            } else {
                None
            }),
    {
        match self.find_initiated(initiating_loader, lookup_name) {
            Some(j) => {
                proof {
                    lemma_find_initiating_same_keys(
                        self.initiating_views(),
                        self.initiating_views(),
                        initiating_loader,
                        lookup_name@,
                        0,
                    );
                }
                Some(self.initiating_classes[j].2)
            },
            None => None,
        }
    }

    /// What `class_id` stands for.
    pub fn class_record(&self, class_id: ClassId) -> (res: Option<&ClassRecord>)
        requires
            self.wf(),
        ensures
            match res {
                Some(r) => self@.records.contains_key(class_id) && r@ == self@.records[class_id],
                None => !self@.records.contains_key(class_id),
            },
    {
        let n = self.records.len();
        if class_id.0 < self.next_class_id {
            assert(class_id.0 < n);
            let i = class_id.0 as usize;
            Some(&self.records[i])
        } else {
            None
        }
    }
}

// ---------------------------------------------------------------------------
// Laws
// ---------------------------------------------------------------------------

impl ClassIdentityRegistry {
    /// A well-formed registry is consistent as a value.
    pub proof fn lemma_view_wf(&self)
        requires
            self.wf(),
        ensures
            registry_wf(self@),
    {
        let recs = self.record_views();
        assert forall|k: (LoaderId, Seq<char>)| #[trigger] self@.defined.contains_key(k) implies self@.records.contains_key(
            self@.defined[k],
        ) && self@.records[self@.defined[k]].defining_loader == k.0
            && self@.records[self@.defined[k]].internal_name == k.1 by {
            lemma_find_record_range(recs, k.0, k.1, 0);
        }
    }
}

/// Registering a name twice under the same defining loader gives the same
/// class id, and the second registration changes nothing.
pub proof fn law_register_idempotent(s: RegistryV, l: LoaderId, n: Seq<char>)
    ensures
        ({
            let (s1, a) = registered(s, l, n);
            let (s2, b) = registered(s1, l, n);
            a == b && s2 == s1
        }),
{
}

/// Registration keeps the registry consistent.
pub proof fn law_register_keeps_wf(s: RegistryV, l: LoaderId, n: Seq<char>)
    requires
        registry_wf(s),
        s.next_class_id < u64::MAX,
    ensures
        registry_wf(registered(s, l, n).0),
{
    broadcast use lemma_class_id_number;

    let (s1, a) = registered(s, l, n);
    if !s.defined.contains_key((l, n)) {
        assert forall|c: ClassId| #[trigger] s1.records.contains_key(c) implies c.id() < s1.next_class_id by {
            if c != a {
                assert(s.records.contains_key(c));
            }
        }
    }
}

/// After registration, looking the name up under the same loader gives the

/// Registering a name that the loader defined already changes nothing and
/// gives the id it was defined with, whatever the id counter.
pub proof fn law_register_defined_changes_nothing(s: RegistryV, l: LoaderId, n: Seq<char>)
    requires
        s.defined.contains_key((l, n)),
    ensures
        registered(s, l, n) == (s, s.defined[(l, n)]),
{
}

/// returned id, and that id's record names the loader and the name.
pub proof fn law_register_then_lookup(s: RegistryV, l: LoaderId, n: Seq<char>)
    requires
        registry_wf(s),
    ensures
        ({
            let (s1, a) = registered(s, l, n);
            &&& s1.defined.contains_key((l, n))
            &&& s1.defined[(l, n)] == a
            &&& s1.records.contains_key(a)
            &&& s1.records[a].defining_loader == l
            &&& s1.records[a].internal_name == n
        }),
{
}

/// The same name registered under two different defining loaders gets two
/// different class ids.
pub proof fn law_distinct_loaders_distinct_ids(s: RegistryV, l1: LoaderId, l2: LoaderId, n: Seq<char>)
    requires
        registry_wf(s),
        s.next_class_id < u64::MAX - 1,
        l1 != l2,
    ensures
        ({
            let (s1, a) = registered(s, l1, n);
            let (s2, b) = registered(s1, l2, n);
            a != b
        }),
{
    broadcast use lemma_class_id_number;

    law_register_keeps_wf(s, l1, n);
    law_register_then_lookup(s, l1, n);
    let (s1, a) = registered(s, l1, n);
    law_register_then_lookup(s1, l2, n);
}

/// Recording an initiating loader leaves every defined class and every
/// record as it was, and the lookup under the initiating loader gives the
/// recorded id.
pub proof fn law_initiating_keeps_definitions(s: RegistryV, l: LoaderId, n: Seq<char>, c: ClassId)
    ensures
        initiated(s, l, n, c).defined == s.defined,
        initiated(s, l, n, c).records == s.records,
        initiated(s, l, n, c).initiating[(l, n)] == c,
        initiated(s, l, n, c).initiating.contains_key((l, n)),
{
}

// ---------------------------------------------------------------------------
// Loader ids of class-loader objects
// ---------------------------------------------------------------------------

/// The loader ids given to `java.lang.ClassLoader` objects, which are known
/// by their identity; fresh ids are numbered from 2 on.
pub struct LoaderTable {
    ids: HashMap<usize, LoaderId>,
    next_loader_id: u64,
}

impl LoaderTable {
    /// The loader id of each class-loader object that has one.
    pub closed spec fn ids(&self) -> Map<usize, LoaderId> {
        self.ids@
    }

    /// The number the next fresh loader id gets.
    pub closed spec fn next_loader_id(&self) -> u64 {
        self.next_loader_id
    }

    /// Ids handed out are the system loader's or numbered below the next
    /// one, and no two objects share a numbered id.
    pub open spec fn wf(&self) -> bool {
        &&& self.next_loader_id() >= 2
        &&& forall|o: usize| #[trigger]
            self.ids().contains_key(o) ==> match self.ids()[o] {
                LoaderId::SYSTEM => true,
                LoaderId::Other(n) => 2 <= n < self.next_loader_id(),
                LoaderId::BOOTSTRAP => false,
            }
        &&& forall|o1: usize, o2: usize|
            #![trigger self.ids()[o1], self.ids()[o2]]
            self.ids().contains_key(o1) && self.ids().contains_key(o2) && o1 != o2
                && self.ids()[o1] is Other ==> self.ids()[o1] != self.ids()[o2]
    }

    /// No class-loader object has an id yet.
    pub fn new() -> (t: LoaderTable)
        ensures
            t.wf(),
            t.ids() == Map::<usize, LoaderId>::empty(),
            t.next_loader_id() == 2,
    {
        let t = LoaderTable { ids: HashMap::new(), next_loader_id: 2 };
        assert(t.ids() =~= Map::<usize, LoaderId>::empty());
        t
    }

    /// The system class loader object gets the system loader's id.
    pub fn register_system_loader(&mut self, object_id: usize)
        requires
            old(self).wf(),
        ensures
            final(self).wf(),
            final(self).ids() == old(self).ids().insert(object_id, LoaderId::SYSTEM),
            final(self).next_loader_id() == old(self).next_loader_id(),
    {
        self.ids.insert(object_id, LoaderId::SYSTEM);
    }

    /// The loader id of a class-loader object: the one it has, else a fresh
    /// one numbered `next_loader_id`.
    pub fn loader_id_for_classloader(&mut self, object_id: usize) -> (id: LoaderId)
        requires
            old(self).wf(),
            old(self).next_loader_id() < u64::MAX,
        ensures
            final(self).wf(),
            (final(self).ids(), final(self).next_loader_id(), id) == assign_loader(
                old(self).ids(),
                old(self).next_loader_id(),
                object_id,
            ),
    {
        if let Some(loader_id) = self.ids.get(&object_id) {
            return *loader_id;
        }
        let loader_id = LoaderId::new(self.next_loader_id);
        self.next_loader_id = self.next_loader_id + 1;
        self.ids.insert(object_id, loader_id);
        proof {
            let m = self.ids();
            assert forall|o1: usize, o2: usize|
                #![trigger m[o1], m[o2]]
                m.contains_key(o1) && m.contains_key(o2) && o1 != o2 && m[o1] is Other implies m[o1] != m[o2] by {
                if o1 != object_id && o2 != object_id {
                    assert(old(self).ids()[o1] == m[o1] && old(self).ids()[o2] == m[o2]);
                } else if o1 == object_id {
                    assert(old(self).ids().contains_key(o2));
                } else {
                    assert(old(self).ids().contains_key(o1));
                }
            }
        }
        loader_id
    }
}

/// The loader table after asking for the loader id of object `o`, and that
/// id: the one `o` has, else `Other(next)`.
pub open spec fn assign_loader(m: Map<usize, LoaderId>, next: u64, o: usize) -> (Map<usize, LoaderId>, u64, LoaderId) {
    if m.contains_key(o) {
        (m, next, m[o])
    } else {
        (m.insert(o, LoaderId::Other(next)), (next + 1) as u64, LoaderId::Other(next))
    }
}

/// Asking again for the loader id of the same object gives the same id and
/// changes nothing.
pub proof fn law_loader_id_is_stable(m: Map<usize, LoaderId>, next: u64, o: usize)
    ensures
        ({
            let (m1, n1, id1) = assign_loader(m, next, o);
            assign_loader(m1, n1, o) == (m1, n1, id1)
        }),
{
}

/// Two class-loader objects never share a loader id handed out by the
/// table.
pub proof fn law_loader_ids_are_distinct(t: LoaderTable, o1: usize, o2: usize)
    requires
        t.wf(),
        t.next_loader_id() < u64::MAX - 1,
        o1 != o2,
    ensures
        ({
            let (m1, n1, id1) = assign_loader(t.ids(), t.next_loader_id(), o1);
            let (m2, n2, id2) = assign_loader(m1, n1, o2);
            id1 is Other ==> id1 != id2
        }),
{
    let (m1, n1, id1) = assign_loader(t.ids(), t.next_loader_id(), o1);
    if t.ids().contains_key(o2) {
        if t.ids().contains_key(o1) {
            assert(t.ids()[o1] == id1);
        }
    }
}
} // verus!
