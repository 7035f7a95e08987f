//! The VM's classes by internal name and by class id, loaded lazily: raw
//! bytes or a JAR entry are kept until the class is first needed, then
//! parsed in place; a class that fails to parse keeps its error, so that
//! "never registered" and "registered but broken" stay apart and the parse
//! is not repeated.

use vstd::prelude::*;
use crate::class_file::{cp_class_name, parse, parse_checked, ClassFile};
use crate::class_spec::{parse_class_spec, ClassFileV, ClassParse};
use crate::jar::{
    entry_readable, entry_view, jar_classes, missing_store_text, mismatch_text, starts_with_text, zip_contents,
    JarEntryRef, JarEntryV, JarStore,
};
use crate::class_identity::{initiated, registered, ClassId, ClassIdentityRegistry, LoaderId, RegistryV};
use crate::text::str_eq;

verus! {

/// The state of a class in the VM's class table.
pub enum LazyClass {
    /// Raw bytes not yet parsed.
    PendingBytes(Vec<u8>),
    /// A JAR entry, decompressed only when first needed.
    PendingJarEntry(JarEntryRef),
    /// The parsed class.
    Ready(ClassFile),
    /// The bytes were there but did not give the class; the error text.
    ParseError(String),
}

/// A class state as a value.
pub enum LazyClassV {
    PendingBytes(Seq<u8>),
    PendingJarEntry(JarEntryV),
    Ready(ClassFileV),
    ParseError(Seq<char>),
}

impl View for LazyClass {
    type V = LazyClassV;

    open spec fn view(&self) -> LazyClassV {
        match self {
            LazyClass::PendingBytes(b) => LazyClassV::PendingBytes(b@),
            LazyClass::PendingJarEntry(e) => LazyClassV::PendingJarEntry(entry_view(*e)),
            LazyClass::Ready(cf) => LazyClassV::Ready(cf@),
            LazyClass::ParseError(e) => LazyClassV::ParseError(e@),
        }
    }
}

/// No key occurs twice in the association list.
pub open spec fn unique_keys<K, V>(list: Seq<(K, V)>) -> bool {
    forall|i: int, j: int| 0 <= i < j < list.len() ==> #[trigger] list[i].0 != #[trigger] list[j].0
}

/// The parsed classes of an association list, in its order.
pub open spec fn ready_of(list: Seq<(String, LazyClass)>) -> Seq<ClassFile>
    decreases list.len(),
{
    if list.len() == 0 {
        Seq::empty()
    } else {
        match list.last().1 {
            LazyClass::Ready(cf) => ready_of(list.drop_last()).push(cf),
            _ => ready_of(list.drop_last()),
        }
    }
}

/// The map an association list with unique keys stands for.
pub open spec fn to_map<K, V>(list: Seq<(K, V)>) -> Map<K, V>
    decreases list.len(),
{
    if list.len() == 0 {
        Map::empty()
    } else {
        to_map(list.drop_last()).insert(list.last().0, list.last().1)
    }
}

proof fn lemma_to_map_push<K, V>(list: Seq<(K, V)>, p: (K, V))
    ensures
        to_map(list.push(p)) == to_map(list).insert(p.0, p.1),
{
    assert(list.push(p).drop_last() =~= list);
}

proof fn lemma_to_map_keys<K, V>(list: Seq<(K, V)>, k: K)
    ensures
        to_map(list).contains_key(k) <==> exists|i: int| 0 <= i < list.len() && #[trigger] list[i].0 == k,
    decreases list.len(),
{
    if list.len() > 0 {
        let d = list.drop_last();
        lemma_to_map_keys(d, k);
        if exists|i: int| 0 <= i < d.len() && #[trigger] d[i].0 == k {
            let i = choose|i: int| 0 <= i < d.len() && #[trigger] d[i].0 == k;
            assert(list[i].0 == k);
        }
        if exists|i: int| 0 <= i < list.len() && #[trigger] list[i].0 == k {
            let i = choose|i: int| 0 <= i < list.len() && #[trigger] list[i].0 == k;
            if i < d.len() {
                assert(d[i].0 == k);
            }
        }
    }
}

proof fn lemma_to_map_at<K, V>(list: Seq<(K, V)>, i: int)
    requires
        unique_keys(list),
        0 <= i < list.len(),
    ensures
        to_map(list).contains_key(list[i].0),
        to_map(list)[list[i].0] == list[i].1,
    decreases list.len(),
{
    let d = list.drop_last();
    if i < list.len() - 1 {
        assert(unique_keys(d)) by {
            assert forall|a: int, b: int| 0 <= a < b < d.len() implies #[trigger] d[a].0 != #[trigger] d[b].0 by {
                assert(list[a].0 != list[b].0);
            }
        }
        assert(d[i] == list[i]);
        lemma_to_map_at(d, i);
        assert(list.last().0 != list[i].0) by {
            assert(list[list.len() - 1].0 != list[i].0);
        }
    }
}

proof fn lemma_to_map_update<K, V>(list: Seq<(K, V)>, i: int, v: V)
    requires
        unique_keys(list),
        0 <= i < list.len(),
    ensures
        unique_keys(list.update(i, (list[i].0, v))),
        to_map(list.update(i, (list[i].0, v))) == to_map(list).insert(list[i].0, v),
    decreases list.len(),
{
    let u = list.update(i, (list[i].0, v));
    assert(unique_keys(u)) by {
        assert forall|a: int, b: int| 0 <= a < b < u.len() implies #[trigger] u[a].0 != #[trigger] u[b].0 by {
            assert(u[a].0 == list[a].0 && u[b].0 == list[b].0);
        }
    }
    let d = list.drop_last();
    if i == list.len() - 1 {
        assert(u.drop_last() =~= d);
        assert(to_map(d).insert(list[i].0, list[i].1).insert(list[i].0, v) =~= to_map(d).insert(list[i].0, v));
    } else {
        assert(unique_keys(d)) by {
            assert forall|a: int, b: int| 0 <= a < b < d.len() implies #[trigger] d[a].0 != #[trigger] d[b].0 by {
                assert(list[a].0 != list[b].0);
            }
        }
        assert(d[i] == list[i]);
        lemma_to_map_update(d, i, v);
        assert(u.drop_last() =~= d.update(i, (d[i].0, v)));
        assert(list.last().0 != list[i].0) by {
            assert(list[list.len() - 1].0 != list[i].0);
        }
        assert(to_map(d).insert(list[i].0, v).insert(list.last().0, list.last().1) =~= to_map(d).insert(
            list.last().0,
            list.last().1,
        ).insert(list[i].0, v));
    }
}

/// The error for a JAR entry whose class names itself otherwise.
pub open spec fn name_mismatch_text(entry_name: Seq<char>, expected: Seq<char>, found: Seq<char>) -> Seq<char> {
    "Class name mismatch for "@ + entry_name + ": expected "@ + expected + ", found "@ + found
}

/// The state parsing pending bytes leads to.
pub open spec fn parsed_state(b: Seq<u8>) -> LazyClassV {
    match parse_class_spec(b) {
        ClassParse::Parsed(c) => LazyClassV::Ready(c),
        ClassParse::Rejected(m) => LazyClassV::ParseError(m),
        ClassParse::Malformed => LazyClassV::ParseError(Seq::empty()),
    }
}

/// The state parsing the bytes of the JAR entry `e`, recorded for class
/// `name`, leads to: the class must name itself `name`.
pub open spec fn jar_parsed_state(b: Seq<u8>, e: JarEntryV, name: Seq<char>) -> LazyClassV {
    match parse_class_spec(b) {
        ClassParse::Parsed(c) => {
            let actual = cp_class_name(c.constant_pool, c.this_class)->0;
            if actual == name {
                LazyClassV::Ready(c)
            } else {
                LazyClassV::ParseError(name_mismatch_text(e.entry_name, name, actual))
            }
        },
        ClassParse::Rejected(m) => LazyClassV::ParseError(m),
        ClassParse::Malformed => LazyClassV::ParseError(Seq::empty()),
    }
}

/// Whether `m` is an error text that reading the JAR entry `e` can give.
pub open spec fn read_error(m: Seq<char>, e: JarEntryV, names: Seq<Seq<Seq<char>>>) -> bool {
    ||| m == missing_store_text(e.entry_name)
    ||| starts_with_text(m, "ZIP entry error for "@ + e.entry_name + ": "@)
    ||| m == mismatch_text(e.entry_index, e.entry_name, names[e.jar_id as int][e.entry_index as int])
    ||| starts_with_text(m, "Read error for "@ + e.entry_name + ": "@)
}

/// The state `ensure_class_ready` leaves a class in, from state `st`: pending
/// bytes are parsed; a pending JAR entry that reads is parsed and must name
/// itself `name`, and one that does not read holds the read error (the
/// missing-store error exactly when its JAR is not loaded).
pub open spec fn readied(
    st: LazyClassV,
    name: Seq<char>,
    names: Seq<Seq<Seq<char>>>,
    data: Seq<Seq<Seq<u8>>>,
    opens: Seq<Seq<bool>>,
    reads: Seq<Seq<bool>>,
    after: LazyClassV,
) -> bool {
    match st {
        LazyClassV::PendingBytes(b) => after == parsed_state(b),
        LazyClassV::PendingJarEntry(e) => if entry_readable(e, names, opens, reads) {
            after == jar_parsed_state(data[e.jar_id as int][e.entry_index as int], e, name)
        } else {
            after matches LazyClassV::ParseError(m) && read_error(m, e, names) && (e.jar_id >= names.len() <==> m
                == missing_store_text(e.entry_name))
        },
        _ => after == st,
    }
}

/// The inputs on which readying a class parses only well-formed bytes and
/// finds the name of what it parsed.
pub open spec fn ready_safe(st: LazyClassV, data: Seq<Seq<Seq<u8>>>) -> bool {
    match st {
        LazyClassV::PendingBytes(b) => !(parse_class_spec(b) is Malformed),
        LazyClassV::PendingJarEntry(e) => (e.jar_id < data.len() && e.entry_index < data[e.jar_id as int].len())
            ==> {
            let b = data[e.jar_id as int][e.entry_index as int];
            &&& !(parse_class_spec(b) is Malformed)
            &&& parse_class_spec(b) matches ClassParse::Parsed(c) ==> cp_class_name(c.constant_pool, c.this_class) is Some
        },
        _ => true,
    }
}

/// Bytes the interpreter parses without stopping: well-formed, and when
/// they give a class, its own name is a `Class` constant.
pub open spec fn bytes_ok(b: Seq<u8>) -> bool {
    &&& !(parse_class_spec(b) is Malformed)
    &&& parse_class_spec(b) matches ClassParse::Parsed(c) ==> cp_class_name(c.constant_pool, c.this_class) is Some
}

/// Whether readying a class in state `st` parses only bytes that
/// `bytes_ok` accepts (for pending bytes, only well-formedness counts).
pub open spec fn ready_ok(
    st: LazyClassV,
    names: Seq<Seq<Seq<char>>>,
    data: Seq<Seq<Seq<u8>>>,
    opens: Seq<Seq<bool>>,
    reads: Seq<Seq<bool>>,
) -> bool {
    match st {
        LazyClassV::PendingBytes(b) => !(parse_class_spec(b) is Malformed),
        LazyClassV::PendingJarEntry(e) => (entry_readable(e, names, opens, reads) && e.jar_id < data.len()
            && e.entry_index < data[e.jar_id as int].len()) ==> bytes_ok(data[e.jar_id as int][e.entry_index as int]),
        _ => true,
    }
}

proof fn lemma_ready_safe_is_ok(
    st: LazyClassV,
    names: Seq<Seq<Seq<char>>>,
    data: Seq<Seq<Seq<u8>>>,
    opens: Seq<Seq<bool>>,
    reads: Seq<Seq<bool>>,
)
    requires
        ready_safe(st, data),
    ensures
        ready_ok(st, names, data, opens, reads),
{
}

/// The VM's classes by internal name.
pub struct ClassStore {
    classes: Vec<(String, LazyClass)>,
}

impl ClassStore {
    spec fn pairs(&self) -> Seq<(Seq<char>, LazyClassV)> {
        self.classes@.map_values(|p: (String, LazyClass)| (p.0@, p.1@))
    }

    /// The state of each registered class, by internal name.
    pub closed spec fn classes(&self) -> Map<Seq<char>, LazyClassV> {
        to_map(self.pairs())
    }

    /// No name is registered twice.
    pub closed spec fn wf(&self) -> bool {
        unique_keys(self.pairs())
    }

    /// The registered names, in the order they were registered.
    pub closed spec fn names(&self) -> Seq<Seq<char>> {
        self.pairs().map_values(|p: (Seq<char>, LazyClassV)| p.0)
    }

    /// The parsed classes, in the order their names were registered.
    pub closed spec fn ready_classes(&self) -> Seq<ClassFile> {
        ready_of(self.classes@)
    }

    /// The registered names.
    pub fn class_names(&self) -> (r: Vec<String>)
        ensures
            r@.map_values(|s: String| s@) == self.names(),
    {
        let mut r: Vec<String> = Vec::new();
        let mut i: usize = 0;
        while i < self.classes.len()
            invariant
                i <= self.classes@.len(),
                r@.map_values(|s: String| s@) =~= self.names().take(i as int),
            decreases self.classes@.len() - i,
        {
            let ghost before = r@;
            r.push(self.classes[i].0.clone());
            assert(r@.map_values(|s: String| s@) =~= before.map_values(|s: String| s@).push(self.classes@[i as int].0@));
            i = i + 1;
        }
        assert(self.names().take(i as int) =~= self.names());
        r
    }

    /// The parsed classes, taken out of the store.
    pub fn into_ready_classes(self) -> (r: Vec<ClassFile>)
        ensures
            r@ == self.ready_classes(),
    {
        let ghost all = self.classes@;
        let mut rest = self.classes;
        let mut out: Vec<ClassFile> = Vec::new();
        // take the entries from the back, then restore the order
        let mut rev: Vec<ClassFile> = Vec::new();
        while rest.len() > 0
            invariant
                ready_of(all) == ready_of(rest@) + rev@.reverse(),
            decreases rest@.len(),
        {
            let ghost before = rest@;
            let p = match rest.pop() {
                Some(p) => p,
                None => vstd::pervasive::unreached(),
            };
            proof {
                assert(before.drop_last() =~= rest@);
                assert(before.last() == p);
            }
            let ghost rv = rev@;
            match p.1 {
                LazyClass::Ready(cf) => {
                    rev.push(cf);
                    assert(rev@.reverse() =~= seq![cf] + rv.reverse());
                    assert(ready_of(before) == ready_of(rest@).push(cf));
                    assert(ready_of(rest@).push(cf) + rv.reverse() =~= ready_of(rest@) + rev@.reverse());
                },
                _ => {
                    assert(ready_of(before) == ready_of(rest@));
                },
            }
        }
        assert(rest@ =~= Seq::<(String, LazyClass)>::empty());
        let ghost rev0 = rev@;
        while rev.len() > 0
            invariant
                out@ + rev@.reverse() == rev0.reverse(),
            decreases rev@.len(),
        {
            let ghost before = rev@;
            let cf = match rev.pop() {
                Some(cf) => cf,
                None => vstd::pervasive::unreached(),
            };
            proof {
                assert(before =~= rev@.push(cf));
                assert(before.reverse() =~= seq![cf] + rev@.reverse());
            }
            out.push(cf);
        }
        assert(out@ =~= rev0.reverse());
        out
    }

    /// No class registered.
    pub fn new() -> (s: Self)
        ensures
            s.wf(),
            s.classes() == Map::<Seq<char>, LazyClassV>::empty(),
    {
        let s = ClassStore { classes: Vec::new() };
        assert(s.pairs() =~= Seq::<(Seq<char>, LazyClassV)>::empty());
        s
    }

    fn index_of(&self, name: &str) -> (r: Option<usize>)
        requires
            self.wf(),
        ensures
            match r {
                Some(i) => i < self.classes@.len() && self.pairs()[i as int].0 == name@
                    && self.classes().contains_key(name@) && self.classes()[name@] == self.pairs()[i as int].1,
                None => !self.classes().contains_key(name@),
            },
    {
        let ghost p = self.pairs();
        let mut i: usize = 0;
        while i < self.classes.len()
            invariant
                p == self.pairs(),
                unique_keys(p),
                p.len() == self.classes@.len(),
                i <= p.len(),
                forall|j: int| 0 <= j < i ==> #[trigger] p[j].0 != name@,
            decreases p.len() - i,
        {
            if str_eq(&self.classes[i].0, name) {
                proof {
                    lemma_to_map_at(p, i as int);
                }
                return Some(i);
            }
            i = i + 1;
        }
        proof {
            lemma_to_map_keys(p, name@);
        }
        None
    }

    /// The state of the class registered under `name`.
    pub fn state(&self, name: &str) -> (r: Option<&LazyClass>)
        requires
            self.wf(),
        ensures
            match r {
                Some(c) => self.classes().contains_key(name@) && c@ == self.classes()[name@],
                None => !self.classes().contains_key(name@),
            },
    {
        match self.index_of(name) {
            Some(i) => Some(&self.classes[i].1),
            None => None,
        }
    }

    /// The parsed class registered under `name`; `None` unless it is ready.
    pub fn get_class(&self, name: &str) -> (r: Option<&ClassFile>)
        requires
            self.wf(),
        ensures
            match r {
                Some(cf) => self.classes().contains_key(name@) && self.classes()[name@] == LazyClassV::Ready(
                    cf@,
                ),
                None => !(self.classes().contains_key(name@) && self.classes()[name@] is Ready),
            },
    {
        match self.state(name) {
            Some(LazyClass::Ready(cf)) => Some(cf),
            _ => None,
        }
    }

    /// Register `state` under `name` unless the name is registered already.
    fn insert_if_absent(&mut self, name: &str, state: LazyClass)
        requires
            old(self).wf(),
        ensures
            final(self).wf(),
            final(self).classes() == if old(self).classes().contains_key(name@) {
                old(self).classes()
            } else {
                old(self).classes().insert(name@, state@)
            },
    {
        if self.index_of(name).is_some() {
            return;
        }
        let ghost p = self.pairs();
        self.classes.push((name.to_string(), state));
        proof {
            assert(self.pairs() =~= p.push((name@, state@)));
            lemma_to_map_push(p, (name@, state@));
            lemma_to_map_keys(p, name@);
            assert forall|a: int, b: int| 0 <= a < b < self.pairs().len() implies #[trigger] self.pairs()[a].0
                != #[trigger] self.pairs()[b].0 by {
                if b == p.len() {
                    assert(p[a].0 != name@);
                }
            }
        }
    }

    /// Register raw class bytes to be parsed when the class is first needed;
    /// a name registered already keeps its state.
    pub fn load_lazy(&mut self, name: &str, bytes: Vec<u8>)
        requires
            old(self).wf(),
        ensures
            final(self).wf(),
            final(self).classes() == if old(self).classes().contains_key(name@) {
                old(self).classes()
            } else {
                old(self).classes().insert(name@, LazyClassV::PendingBytes(bytes@))
            },
    {
        self.insert_if_absent(name, LazyClass::PendingBytes(bytes));
    }

    /// Register a JAR entry to be read and parsed when the class is first
    /// needed; a name registered already keeps its state.
    pub fn load_lazy_jar_entry(&mut self, name: &str, entry: JarEntryRef)
        requires
            old(self).wf(),
        ensures
            final(self).wf(),
            final(self).classes() == if old(self).classes().contains_key(name@) {
                old(self).classes()
            } else {
                old(self).classes().insert(name@, LazyClassV::PendingJarEntry(entry_view(entry)))
            },
    {
        self.insert_if_absent(name, LazyClass::PendingJarEntry(entry));
    }

    /// Put `state` under `name`, replacing what was there.
    fn put(&mut self, name: &str, state: LazyClass)
        requires
            old(self).wf(),
        ensures
            final(self).wf(),
            final(self).classes() == old(self).classes().insert(name@, state@),
    {
        match self.index_of(name) {
            Some(i) => {
                let ghost p = self.pairs();
                let (key, _) = self.classes.remove(i);
                self.classes.insert(i, (key, state));
                proof {
                    assert(self.pairs() =~= p.update(i as int, (p[i as int].0, state@)));
                    lemma_to_map_update(p, i as int, state@);
                }
            },
            None => {
                let ghost p = self.pairs();
                self.classes.push((name.to_string(), state));
                proof {
                    assert(self.pairs() =~= p.push((name@, state@)));
                    lemma_to_map_push(p, (name@, state@));
                    lemma_to_map_keys(p, name@);
                    assert forall|a: int, b: int| 0 <= a < b < self.pairs().len() implies #[trigger] self.pairs()[a].0
                        != #[trigger] self.pairs()[b].0 by {
                        if b == p.len() {
                            assert(p[a].0 != name@);
                        }
                    }
                }
            },
        }
    }

    /// Register a parsed class under the name its `this_class` gives,
    /// replacing what was registered under that name.
    pub fn load_class(&mut self, class_file: ClassFile)
        requires
            old(self).wf(),
            cp_class_name(class_file@.constant_pool, class_file.this_class) is Some,
        ensures
            final(self).wf(),
            final(self).classes() == old(self).classes().insert(
                cp_class_name(class_file@.constant_pool, class_file.this_class)->0,
                LazyClassV::Ready(class_file@),
            ),
    {
        let name = class_file.constant_pool.class_name(class_file.this_class).to_string();
        self.put(&name, LazyClass::Ready(class_file));
    }

    /// Parse the class registered under `name` if it is pending: raw bytes
    /// become the parsed class or its error; a JAR entry is read first, and
    /// a class whose `this_class` names another class than the entry path
    /// says is an error too. Any other state, and every other name, is left
    /// as it is.
    pub fn ensure_class_ready(&mut self, name: &str, jars: &mut JarStore)
        requires
            old(self).wf(),
            old(jars).wf(),
            old(self).classes().contains_key(name@) ==> ready_safe(old(self).classes()[name@], old(jars).jar_data()),
        ensures
            final(self).wf(),
            final(jars).wf(),
            final(jars).jar_names() == old(jars).jar_names(),
            final(jars).jar_data() == old(jars).jar_data(),
            final(jars).jar_opens() == old(jars).jar_opens(),
            final(jars).jar_reads() == old(jars).jar_reads(),
            final(jars).read_resources() == old(jars).read_resources(),
            final(jars).pending() == old(jars).pending(),
            !old(self).classes().contains_key(name@) ==> final(self).classes() == old(self).classes(),
            old(self).classes().contains_key(name@) ==> {
                &&& final(self).classes().contains_key(name@)
                &&& final(self).classes().remove(name@) == old(self).classes().remove(name@)
                &&& readied(
                    old(self).classes()[name@],
                    name@,
                    old(jars).jar_names(),
                    old(jars).jar_data(),
                    old(jars).jar_opens(),
                    old(jars).jar_reads(),
                    final(self).classes()[name@],
                )
            },
    {
        let ok = self.try_ensure_class_ready(name, jars);
        proof {
            if old(self).classes().contains_key(name@) {
                lemma_ready_safe_is_ok(
                    old(self).classes()[name@],
                    old(jars).jar_names(),
                    old(jars).jar_data(),
                    old(jars).jar_opens(),
                    old(jars).jar_reads(),
                );
            }
        }
    }

    /// Like `ensure_class_ready`, but first checks what the interpreter
    /// would stop on: pending bytes that are truncated or otherwise
    /// malformed, or (for a JAR entry that reads) bytes that are malformed
    /// or parse to a class whose own name is not a `Class` constant. Then
    /// it changes nothing and returns `false`; otherwise it readies the
    /// class and returns `true`.
    pub fn try_ensure_class_ready(&mut self, name: &str, jars: &mut JarStore) -> (ok: bool)
        requires
            old(self).wf(),
            old(jars).wf(),
        ensures
            final(self).wf(),
            final(jars).wf(),
            final(jars).jar_names() == old(jars).jar_names(),
            final(jars).jar_data() == old(jars).jar_data(),
            final(jars).jar_opens() == old(jars).jar_opens(),
            final(jars).jar_reads() == old(jars).jar_reads(),
            final(jars).read_resources() == old(jars).read_resources(),
            final(jars).pending() == old(jars).pending(),
            ok == !(old(self).classes().contains_key(name@) && !ready_ok(
                old(self).classes()[name@],
                old(jars).jar_names(),
                old(jars).jar_data(),
                old(jars).jar_opens(),
                old(jars).jar_reads(),
            )),
            !ok ==> final(self).classes() == old(self).classes(),
            ok && !old(self).classes().contains_key(name@) ==> final(self).classes() == old(self).classes(),
            ok && old(self).classes().contains_key(name@) ==> {
                &&& final(self).classes().contains_key(name@)
                &&& final(self).classes().remove(name@) == old(self).classes().remove(name@)
                &&& readied(
                    old(self).classes()[name@],
                    name@,
                    old(jars).jar_names(),
                    old(jars).jar_data(),
                    old(jars).jar_opens(),
                    old(jars).jar_reads(),
                    final(self).classes()[name@],
                )
            },
    {
        let i = match self.index_of(name) {
            Some(i) => i,
            None => {
                return true;
            },
        };
        let ghost old_map = self.classes();
        let ghost st = old_map[name@];
        let ghost names0 = jars.jar_names();
        let ghost data0 = jars.jar_data();
        let ghost opens0 = jars.jar_opens();
        let ghost reads0 = jars.jar_reads();
        assert(self.classes[i as int].1@ == st);
        let next = match &self.classes[i].1 {
            LazyClass::PendingBytes(bytes) => match parse_checked(bytes) {
                Some(Ok(cf)) => LazyClass::Ready(cf),
                Some(Err(e)) => LazyClass::ParseError(e),
                None => {
                    return false;
                },
            },
            LazyClass::PendingJarEntry(entry) => {
                let ghost e = entry_view(*entry);
                match jars.read_jar_entry(entry) {
                    Ok(bytes) => {
                        assert(bytes@ == data0[e.jar_id as int][e.entry_index as int]);
                        match parse_checked(&bytes) {
                            None => {
                                return false;
                            },
                            Some(Ok(cf)) => {
                                let actual_name = match cf.constant_pool.class_name_entry(cf.this_class) {
                                    Some(n) => n,
                                    None => {
                                        return false;
                                    },
                                };
                                if str_eq(actual_name, name) {
                                    LazyClass::Ready(cf)
                                } else {
                                    let mut m = String::new();
                                    m.append("Class name mismatch for ");
                                    m.append(&entry.entry_name);
                                    m.append(": expected ");
                                    m.append(name);
                                    m.append(", found ");
                                    m.append(actual_name);
                                    LazyClass::ParseError(m)
                                }
                            },
                            Some(Err(m)) => LazyClass::ParseError(m),
                        }
                    },
                    Err(m) => {
                        assert(read_error(m@, e, names0));
                        assert(!entry_readable(e, names0, opens0, reads0));
                        LazyClass::ParseError(m)
                    },
                }
            },
            _ => {
                return true;
            },
        };
        assert(readied(st, name@, names0, data0, opens0, reads0, next@));
        self.put(name, next);
        proof {
            assert(self.classes().remove(name@) =~= old_map.remove(name@));
        }
        true
    }
}

/// The internal name the registry gives a class id, or the empty name for
/// an id with no record.
pub open spec fn expected_name(r: RegistryV, id: ClassId) -> Seq<char> {
    if r.records.contains_key(id) {
        r.records[id].internal_name
    } else {
        Seq::empty()
    }
}

/// The VM's classes by class id, loaded lazily as by name.
pub struct ClassIdStore {
    classes: Vec<(ClassId, LazyClass)>,
}

impl ClassIdStore {
    spec fn pairs(&self) -> Seq<(ClassId, LazyClassV)> {
        self.classes@.map_values(|p: (ClassId, LazyClass)| (p.0, p.1@))
    }

    /// The state of each registered class, by class id.
    pub closed spec fn classes(&self) -> Map<ClassId, LazyClassV> {
        to_map(self.pairs())
    }

    /// No class id is registered twice.
    pub closed spec fn wf(&self) -> bool {
        unique_keys(self.pairs())
    }

    /// No class registered.
    pub fn new() -> (s: Self)
        ensures
            s.wf(),
            s.classes() == Map::<ClassId, LazyClassV>::empty(),
    {
        let s = ClassIdStore { classes: Vec::new() };
        assert(s.pairs() =~= Seq::<(ClassId, LazyClassV)>::empty());
        s
    }

    fn index_of(&self, id: ClassId) -> (r: Option<usize>)
        requires
            self.wf(),
        ensures
            match r {
                Some(i) => i < self.classes@.len() && self.pairs()[i as int].0 == id && self.classes().contains_key(id)
                    && self.classes()[id] == self.pairs()[i as int].1,
                None => !self.classes().contains_key(id),
            },
    {
        let ghost p = self.pairs();
        let mut i: usize = 0;
        while i < self.classes.len()
            invariant
                p == self.pairs(),
                unique_keys(p),
                p.len() == self.classes@.len(),
                i <= p.len(),
                forall|j: int| 0 <= j < i ==> #[trigger] p[j].0 != id,
            decreases p.len() - i,
        {
            if self.classes[i].0 == id {
                proof {
                    lemma_to_map_at(p, i as int);
                }
                return Some(i);
            }
            i = i + 1;
        }
        proof {
            lemma_to_map_keys(p, id);
        }
        None
    }

    /// The state of the class with this id.
    pub fn state(&self, id: ClassId) -> (r: Option<&LazyClass>)
        requires
            self.wf(),
        ensures
            match r {
                Some(c) => self.classes().contains_key(id) && c@ == self.classes()[id],
                None => !self.classes().contains_key(id),
            },
    {
        match self.index_of(id) {
            Some(i) => Some(&self.classes[i].1),
            None => None,
        }
    }

    /// The parsed class with this id; `None` unless it is ready.
    pub fn get_class_by_id(&self, id: ClassId) -> (r: Option<&ClassFile>)
        requires
            self.wf(),
        ensures
            match r {
                Some(cf) => self.classes().contains_key(id) && self.classes()[id] == LazyClassV::Ready(cf@),
                None => !(self.classes().contains_key(id) && self.classes()[id] is Ready),
            },
    {
        match self.state(id) {
            Some(LazyClass::Ready(cf)) => Some(cf),
            _ => None,
        }
    }

    fn insert_if_absent(&mut self, id: ClassId, state: LazyClass)
        requires
            old(self).wf(),
        ensures
            final(self).wf(),
            final(self).classes() == if old(self).classes().contains_key(id) {
                old(self).classes()
            } else {
                old(self).classes().insert(id, state@)
            },
    {
        if self.index_of(id).is_some() {
            return;
        }
        let ghost p = self.pairs();
        self.classes.push((id, state));
        proof {
            assert(self.pairs() =~= p.push((id, state@)));
            lemma_to_map_push(p, (id, state@));
            lemma_to_map_keys(p, id);
            assert forall|a: int, b: int| 0 <= a < b < self.pairs().len() implies #[trigger] self.pairs()[a].0
                != #[trigger] self.pairs()[b].0 by {
                if b == p.len() {
                    assert(p[a].0 != id);
                }
            }
        }
    }

    fn put(&mut self, id: ClassId, state: LazyClass)
        requires
            old(self).wf(),
        ensures
            final(self).wf(),
            final(self).classes() == old(self).classes().insert(id, state@),
    {
        match self.index_of(id) {
            Some(i) => {
                let ghost p = self.pairs();
                let (key, _) = self.classes.remove(i);
                self.classes.insert(i, (key, state));
                proof {
                    assert(self.pairs() =~= p.update(i as int, (p[i as int].0, state@)));
                    lemma_to_map_update(p, i as int, state@);
                }
            },
            None => {
                let ghost p = self.pairs();
                self.classes.push((id, state));
                proof {
                    assert(self.pairs() =~= p.push((id, state@)));
                    lemma_to_map_push(p, (id, state@));
                    lemma_to_map_keys(p, id);
                    assert forall|a: int, b: int| 0 <= a < b < self.pairs().len() implies #[trigger] self.pairs()[a].0
                        != #[trigger] self.pairs()[b].0 by {
                        if b == p.len() {
                            assert(p[a].0 != id);
                        }
                    }
                }
            },
        }
    }

    /// Register raw class bytes for the class id; an id registered already
    /// keeps its state.
    pub fn load_lazy(&mut self, id: ClassId, bytes: Vec<u8>)
        requires
            old(self).wf(),
        ensures
            final(self).wf(),
            final(self).classes() == if old(self).classes().contains_key(id) {
                old(self).classes()
            } else {
                old(self).classes().insert(id, LazyClassV::PendingBytes(bytes@))
            },
    {
        self.insert_if_absent(id, LazyClass::PendingBytes(bytes));
    }

    /// Register a JAR entry for the class id; an id registered already
    /// keeps its state.
    pub fn load_lazy_jar_entry(&mut self, id: ClassId, entry: JarEntryRef)
        requires
            old(self).wf(),
        ensures
            final(self).wf(),
            final(self).classes() == if old(self).classes().contains_key(id) {
                old(self).classes()
            } else {
                old(self).classes().insert(id, LazyClassV::PendingJarEntry(entry_view(entry)))
            },
    {
        self.insert_if_absent(id, LazyClass::PendingJarEntry(entry));
    }

    /// Register a parsed class under its id, replacing what was there.
    pub fn load_class(&mut self, id: ClassId, class_file: ClassFile)
        requires
            old(self).wf(),
        ensures
            final(self).wf(),
            final(self).classes() == old(self).classes().insert(id, LazyClassV::Ready(class_file@)),
    {
        self.put(id, LazyClass::Ready(class_file));
    }

    /// Parse the class with this id if it is pending, as
    /// `ClassStore::ensure_class_ready` does by name; a JAR entry must hold
    /// the class the registry records under the id.
    pub fn ensure_class_ready_by_id(&mut self, registry: &ClassIdentityRegistry, id: ClassId, jars: &mut JarStore)
        requires
            old(self).wf(),
            registry.wf(),
            old(jars).wf(),
            old(self).classes().contains_key(id) ==> ready_safe(old(self).classes()[id], old(jars).jar_data()),
        ensures
            final(self).wf(),
            final(jars).wf(),
            final(jars).jar_names() == old(jars).jar_names(),
            final(jars).jar_data() == old(jars).jar_data(),
            final(jars).jar_opens() == old(jars).jar_opens(),
            final(jars).jar_reads() == old(jars).jar_reads(),
            final(jars).read_resources() == old(jars).read_resources(),
            final(jars).pending() == old(jars).pending(),
            !old(self).classes().contains_key(id) ==> final(self).classes() == old(self).classes(),
            old(self).classes().contains_key(id) ==> {
                &&& final(self).classes().contains_key(id)
                &&& final(self).classes().remove(id) == old(self).classes().remove(id)
                &&& readied(
                    old(self).classes()[id],
                    expected_name(registry@, id),
                    old(jars).jar_names(),
                    old(jars).jar_data(),
                    old(jars).jar_opens(),
                    old(jars).jar_reads(),
                    final(self).classes()[id],
                )
            },
    {
        let ok = self.try_ensure_class_ready_by_id(registry, id, jars);
        proof {
            if old(self).classes().contains_key(id) {
                lemma_ready_safe_is_ok(
                    old(self).classes()[id],
                    old(jars).jar_names(),
                    old(jars).jar_data(),
                    old(jars).jar_opens(),
                    old(jars).jar_reads(),
                );
            }
        }
    }

    /// Like `ensure_class_ready_by_id`, but changes nothing and returns
    /// `false` where the interpreter would stop (as
    /// `ClassStore::try_ensure_class_ready` says); otherwise readies the class
    /// and returns `true`.
    pub fn try_ensure_class_ready_by_id(&mut self, registry: &ClassIdentityRegistry, id: ClassId, jars: &mut JarStore) -> (ok: bool)
        requires
            old(self).wf(),
            registry.wf(),
            old(jars).wf(),
        ensures
            final(self).wf(),
            final(jars).wf(),
            final(jars).jar_names() == old(jars).jar_names(),
            final(jars).jar_data() == old(jars).jar_data(),
            final(jars).jar_opens() == old(jars).jar_opens(),
            final(jars).jar_reads() == old(jars).jar_reads(),
            final(jars).read_resources() == old(jars).read_resources(),
            final(jars).pending() == old(jars).pending(),
            ok == !(old(self).classes().contains_key(id) && !ready_ok(
                old(self).classes()[id],
                old(jars).jar_names(),
                old(jars).jar_data(),
                old(jars).jar_opens(),
                old(jars).jar_reads(),
            )),
            !ok ==> final(self).classes() == old(self).classes(),
            ok && !old(self).classes().contains_key(id) ==> final(self).classes() == old(self).classes(),
            ok && old(self).classes().contains_key(id) ==> {
                &&& final(self).classes().contains_key(id)
                &&& final(self).classes().remove(id) == old(self).classes().remove(id)
                &&& readied(
                    old(self).classes()[id],
                    expected_name(registry@, id),
                    old(jars).jar_names(),
                    old(jars).jar_data(),
                    old(jars).jar_opens(),
                    old(jars).jar_reads(),
                    final(self).classes()[id],
                )
            },
    {
        let i = match self.index_of(id) {
            Some(i) => i,
            None => {
                return true;
            },
        };
        let expected = match registry.class_record(id) {
            Some(record) => record.internal_name.clone(),
            None => String::new(),
        };
        let ghost old_map = self.classes();
        let ghost st = old_map[id];
        let ghost names0 = jars.jar_names();
        let ghost data0 = jars.jar_data();
        let ghost opens0 = jars.jar_opens();
        let ghost reads0 = jars.jar_reads();
        assert(self.classes[i as int].1@ == st);
        let next = match &self.classes[i].1 {
            LazyClass::PendingBytes(bytes) => match parse_checked(bytes) {
                Some(Ok(cf)) => LazyClass::Ready(cf),
                Some(Err(e)) => LazyClass::ParseError(e),
                None => {
                    return false;
                },
            },
            LazyClass::PendingJarEntry(entry) => {
                let ghost e = entry_view(*entry);
                match jars.read_jar_entry(entry) {
                    Ok(bytes) => {
                        match parse_checked(&bytes) {
                            None => {
                                return false;
                            },
                            Some(Ok(cf)) => {
                                let actual_name = match cf.constant_pool.class_name_entry(cf.this_class) {
                                    Some(n) => n,
                                    None => {
                                        return false;
                                    },
                                };
                                if str_eq(actual_name, &expected) {
                                    LazyClass::Ready(cf)
                                } else {
                                    let mut m = String::new();
                                    m.append("Class name mismatch for ");
                                    m.append(&entry.entry_name);
                                    m.append(": expected ");
                                    m.append(&expected);
                                    m.append(", found ");
                                    m.append(actual_name);
                                    LazyClass::ParseError(m)
                                }
                            },
                            Some(Err(m)) => LazyClass::ParseError(m),
                        }
                    },
                    Err(m) => {
                        assert(read_error(m@, e, names0));
                        assert(!entry_readable(e, names0, opens0, reads0));
                        LazyClass::ParseError(m)
                    },
                }
            },
            _ => {
                return true;
            },
        };
        assert(readied(st, expected@, names0, data0, opens0, reads0, next@));
        self.put(id, next);
        proof {
            assert(self.classes().remove(id) =~= old_map.remove(id));
        }
        true
    }
}

/// Register the class `name` of a JAR entry as the VM does when it loads a
/// JAR: the system loader defines the class (reusing the id it has) and is
/// recorded as initiating its lookup; the entry then waits, unread, under
/// the name and under the id, unless something is there already.
pub fn register_lazy_jar_class(
    registry: &mut ClassIdentityRegistry,
    by_name: &mut ClassStore,
    by_id: &mut ClassIdStore,
    name: &str,
    entry: JarEntryRef,
) -> (id: ClassId)
    requires
        old(registry).wf(),
        old(by_name).wf(),
        old(by_id).wf(),
        old(registry)@.next_class_id < u64::MAX || old(registry)@.defined.contains_key((LoaderId::SYSTEM, name@)),
    ensures
        final(registry).wf(),
        final(by_name).wf(),
        final(by_id).wf(),
        id == registered(old(registry)@, LoaderId::SYSTEM, name@).1,
        final(registry)@ == initiated(registered(old(registry)@, LoaderId::SYSTEM, name@).0, LoaderId::SYSTEM, name@, id),
        final(by_name).classes() == if old(by_name).classes().contains_key(name@) {
            old(by_name).classes()
        } else {
            old(by_name).classes().insert(name@, LazyClassV::PendingJarEntry(entry_view(entry)))
        },
        final(by_id).classes() == if old(by_id).classes().contains_key(id) {
            old(by_id).classes()
        } else {
            old(by_id).classes().insert(id, LazyClassV::PendingJarEntry(entry_view(entry)))
        },
{
    let id = registry.register_defined_class(LoaderId::SYSTEM, name);
    registry.record_initiating_loader(LoaderId::SYSTEM, name, id);
    let copy = JarEntryRef { jar_id: entry.jar_id, entry_index: entry.entry_index, entry_name: entry.entry_name.clone() };
    by_id.load_lazy_jar_entry(id, copy);
    by_name.load_lazy_jar_entry(name, entry);
    id
}

/// The registry, the class table by name and the class table by id after
/// registering one class of a JAR, as `register_lazy_jar_class` does.
pub open spec fn jar_class_step(
    s: (RegistryV, Map<Seq<char>, LazyClassV>, Map<ClassId, LazyClassV>),
    c: (Seq<char>, JarEntryV),
) -> (RegistryV, Map<Seq<char>, LazyClassV>, Map<ClassId, LazyClassV>) {
    let (reg, names, ids) = s;
    let (r2, id) = registered(reg, LoaderId::SYSTEM, c.0);
    (
        initiated(r2, LoaderId::SYSTEM, c.0, id),
        if names.contains_key(c.0) {
            names
        } else {
            names.insert(c.0, LazyClassV::PendingJarEntry(c.1))
        },
        if ids.contains_key(id) {
            ids
        } else {
            ids.insert(id, LazyClassV::PendingJarEntry(c.1))
        },
    )
}

/// The same after registering each class of the list in order.
pub open spec fn jar_classes_registered(
    s: (RegistryV, Map<Seq<char>, LazyClassV>, Map<ClassId, LazyClassV>),
    l: Seq<(Seq<char>, JarEntryV)>,
) -> (RegistryV, Map<Seq<char>, LazyClassV>, Map<ClassId, LazyClassV>)
    decreases l.len(),
{
    if l.len() == 0 {
        s
    } else {
        jar_class_step(jar_classes_registered(s, l.drop_last()), l.last())
    }
}

proof fn lemma_registered_counter(s: (RegistryV, Map<Seq<char>, LazyClassV>, Map<ClassId, LazyClassV>), l: Seq<(Seq<char>, JarEntryV)>)
    requires
        s.0.next_class_id + l.len() < u64::MAX,
    ensures
        jar_classes_registered(s, l).0.next_class_id <= s.0.next_class_id + l.len(),
    decreases l.len(),
{
    if l.len() > 0 {
        lemma_registered_counter(s, l.drop_last());
    }
}

/// Register the classes a JAR load found (`JarStore::load_jar`), in order,
/// each as `register_lazy_jar_class` does; gives their number.
pub fn register_jar_classes(
    registry: &mut ClassIdentityRegistry,
    by_name: &mut ClassStore,
    by_id: &mut ClassIdStore,
    classes: Vec<(String, JarEntryRef)>,
) -> (n: usize)
    requires
        old(registry).wf(),
        old(by_name).wf(),
        old(by_id).wf(),
        old(registry)@.next_class_id + classes@.len() < u64::MAX,
    ensures
        final(registry).wf(),
        final(by_name).wf(),
        final(by_id).wf(),
        n == classes@.len(),
        (final(registry)@, final(by_name).classes(), final(by_id).classes()) == jar_classes_registered(
            (old(registry)@, old(by_name).classes(), old(by_id).classes()),
            classes@.map_values(|p: (String, JarEntryRef)| (p.0@, entry_view(p.1))),
        ),
{
    let ghost init = (registry@, by_name.classes(), by_id.classes());
    let ghost l = classes@.map_values(|p: (String, JarEntryRef)| (p.0@, entry_view(p.1)));
    let n = classes.len();
    let mut i: usize = 0;
    while i < n
        invariant
            n == classes@.len(),
            l == classes@.map_values(|p: (String, JarEntryRef)| (p.0@, entry_view(p.1))),
            i <= n,
            registry.wf(),
            by_name.wf(),
            by_id.wf(),
            init.0.next_class_id + n < u64::MAX,
            (registry@, by_name.classes(), by_id.classes()) == jar_classes_registered(init, l.take(i as int)),
        decreases n - i,
    {
        proof {
            lemma_registered_counter(init, l.take(i as int));
        }
        let p = &classes[i];
        let entry = JarEntryRef { jar_id: p.1.jar_id, entry_index: p.1.entry_index, entry_name: p.1.entry_name.clone() };
        assert(entry_view(entry) == entry_view(classes@[i as int].1));
        register_lazy_jar_class(registry, by_name, by_id, p.0.as_str(), entry);
        proof {
            assert(l.take(i + 1).drop_last() =~= l.take(i as int));
            assert(l.take(i + 1).last() == l[i as int]);
        }
        i = i + 1;
    }
    assert(l.take(n as int) =~= l);
    n
}

pub open spec fn id_overflow_text() -> Seq<char> {
    "class id counter overflow"@
}

/// Load a JAR (`JarStore::load_jar`) and register each of its classes
/// (`register_jar_classes`): gives the number of classes. The class tables
/// stay as they were when the JAR cannot be read, or when the class ids the
/// classes may take would run past the id counter's range.
pub fn load_jar_classes(
    jars: &mut JarStore,
    registry: &mut ClassIdentityRegistry,
    by_name: &mut ClassStore,
    by_id: &mut ClassIdStore,
    jar_bytes: &[u8],
) -> (r: Result<usize, String>)
    requires
        old(jars).wf(),
        old(registry).wf(),
        old(by_name).wf(),
        old(by_id).wf(),
    ensures
        final(jars).wf(),
        final(registry).wf(),
        final(by_name).wf(),
        final(by_id).wf(),
        r is Err ==> final(registry)@ == old(registry)@ && final(by_name).classes() == old(by_name).classes()
            && final(by_id).classes() == old(by_id).classes(),
        zip_contents(jar_bytes@) is None ==> r is Err,
        (zip_contents(jar_bytes@) matches Some(z) && (forall|k: int| 0 <= k < z.0.len() ==> #[trigger] z.2[k])
            && old(registry)@.next_class_id + jar_classes(z.0, old(jars).jar_names().len(), z.0.len() as int).len()
            < u64::MAX) ==> r is Ok,
        r matches Err(e) && e@ == id_overflow_text() ==> (zip_contents(jar_bytes@) matches Some(z)
            && old(registry)@.next_class_id + jar_classes(z.0, old(jars).jar_names().len(), z.0.len() as int).len()
            >= u64::MAX),
        r matches Ok(n) ==> {
            let id = old(jars).jar_names().len();
            let names = final(jars).jar_names()[id as int];
            let cls = jar_classes(names, id, names.len() as int);
            &&& final(jars).jar_names().len() == id + 1
            &&& zip_contents(jar_bytes@) matches Some(z) && z.0 == names
            &&& n == cls.len()
            &&& (final(registry)@, final(by_name).classes(), final(by_id).classes()) == jar_classes_registered(
                (old(registry)@, old(by_name).classes(), old(by_id).classes()),
                cls,
            )
        },
{
    let ghost id = old(jars).jar_names().len();
    let classes = match jars.load_jar(jar_bytes) {
        Ok(c) => c,
        Err(e) => {
            proof {
                reveal_strlit("class id counter overflow");
                reveal_strlit("Invalid JAR/ZIP: ");
                reveal_strlit("ZIP entry error: ");
            }
            assert(e@ != id_overflow_text()) by {
                if e@ == id_overflow_text() {
                    assert(e@[0] == 'c');
                    if starts_with_text(e@, "Invalid JAR/ZIP: "@) {
                        assert(e@.subrange(0, 17)[0] == e@[0]);
                    } else {
                        assert(e@.subrange(0, 17)[0] == e@[0]);
                    }
                }
            }
            return Err(e);
        },
    };
    proof {
        let names = jars.jar_names()[id as int];
        assert(classes@.map_values(|p: (String, JarEntryRef)| (p.0@, entry_view(p.1))).len() == classes@.len());
    }
    let next = registry.next_class_id();
    if next >= u64::MAX || (classes.len() as u64) >= u64::MAX - next {
        let mut e = String::new();
        e.append("class id counter overflow");
        return Err(e);
    }
    let n = register_jar_classes(registry, by_name, by_id, classes);
    Ok(n)
}

/// Readying a class twice in a row does nothing the second time: a class
/// that was pending is now ready or holds its error.
pub proof fn law_ready_is_final(
    st: LazyClassV,
    name: Seq<char>,
    names: Seq<Seq<Seq<char>>>,
    data: Seq<Seq<Seq<u8>>>,
    opens: Seq<Seq<bool>>,
    reads: Seq<Seq<bool>>,
    after: LazyClassV,
    again: LazyClassV,
)
    requires
        readied(st, name, names, data, opens, reads, after),
        readied(after, name, names, data, opens, reads, again),
    ensures
        after is Ready || after is ParseError || after == st,
        again == after,
{
}

} // verus!
