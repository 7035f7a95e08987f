//! Class initialization bookkeeping (JVMS §5.5). Running a class's
//! `<clinit>` executes bytecode, which the interpreter does; the decisions
//! around it stand here: whether a class still needs initializing, which
//! classes must be initialized before it, whether it declares a `<clinit>`
//! at all, and what a failed initializer leaves behind.

use vstd::prelude::*;
use crate::class_file::{cp_class_name, ClassFile, MethodInfo};
use crate::class_spec::ClassFileV;
use crate::method_exec::{find_method_index, member_position, member_scan_ok};
use crate::loading::{no_class_def, no_class_def_text};
use crate::text::str_eq;

verus! {

/// The set of names held in a sequence of strings.
pub open spec fn names_in(v: Seq<String>) -> Set<Seq<char>> {
    Set::new(|n: Seq<char>| exists|i: int| 0 <= i < v.len() && #[trigger] v[i]@ == n)
}

proof fn lemma_names_in_empty(v: Seq<String>)
    requires
        v.len() == 0,
    ensures
        names_in(v) == Set::<Seq<char>>::empty(),
{
    assert(names_in(v) =~= Set::<Seq<char>>::empty());
}

proof fn lemma_names_in_push(v: Seq<String>, x: String)
    ensures
        names_in(v.push(x)) == names_in(v).insert(x@),
{
    let w = v.push(x);
    assert forall|n: Seq<char>| #[trigger] names_in(w).contains(n) <==> names_in(v).insert(x@).contains(n) by {
        if names_in(w).contains(n) {
            let j = choose|j: int| 0 <= j < w.len() && #[trigger] w[j]@ == n;
            if j < v.len() {
                assert(v[j]@ == n);
            }
        }
        if names_in(v).contains(n) {
            let j = choose|j: int| 0 <= j < v.len() && #[trigger] v[j]@ == n;
            assert(w[j]@ == n);
        }
        if n == x@ {
            assert(w[v.len() as int]@ == n);
        }
    }
    assert(names_in(w) =~= names_in(v).insert(x@));
}

/// The classes whose initialization has begun (and not failed), and those
/// whose initializer failed.
pub struct ClassInitV {
    pub done: Set<Seq<char>>,
    pub failed: Set<Seq<char>>,
}

/// A class is never both initialized and erroneous.
pub open spec fn init_table_wf(t: ClassInitV) -> bool {
    t.done.disjoint(t.failed)
}

/// What asking to initialize a class answers.
pub enum InitStart {
    /// Initialization has already begun or finished: nothing to do.
    Initialized,
    /// An earlier initializer failed; the text of the error to raise.
    Erroneous(String),
    /// The class is now marked as initialized; its superclasses and
    /// `<clinit>` are to run.
    Started,
}

pub enum InitStartV {
    Initialized,
    Erroneous(Seq<char>),
    Started,
}

impl View for InitStart {
    type V = InitStartV;

    open spec fn view(&self) -> InitStartV {
        match self {
            InitStart::Initialized => InitStartV::Initialized,
            InitStart::Erroneous(e) => InitStartV::Erroneous(e@),
            InitStart::Started => InitStartV::Started,
        }
    }
}

/// The answer to a request to initialize `name` in the state `t`.
pub open spec fn begin_outcome(t: ClassInitV, name: Seq<char>) -> InitStartV {
    if t.done.contains(name) {
        InitStartV::Initialized
    } else if t.failed.contains(name) {
        InitStartV::Erroneous(no_class_def_text(name))
    } else {
        InitStartV::Started
    }
}

/// The state after a request to initialize `name`: a class that is
/// neither initialized nor erroneous is marked initialized before its
/// initializer runs, so that a request from inside it finds it done.
pub open spec fn after_begin(t: ClassInitV, name: Seq<char>) -> ClassInitV {
    if !t.done.contains(name) && !t.failed.contains(name) {
        ClassInitV { done: t.done.insert(name), failed: t.failed }
    } else {
        t
    }
}

/// The state after the initializer of `name` failed.
pub open spec fn after_failure(t: ClassInitV, name: Seq<char>) -> ClassInitV {
    ClassInitV { done: t.done.remove(name), failed: t.failed.insert(name) }
}

/// The error a failed initializer turns into.
pub open spec fn init_error_text() -> Seq<char> {
    "java/lang/ExceptionInInitializerError"@
}

/// Which classes have been initialized and which are erroneous.
pub struct ClassInitTable {
    done: Vec<String>,
    failed: Vec<String>,
}

impl View for ClassInitTable {
    type V = ClassInitV;

    closed spec fn view(&self) -> ClassInitV {
        ClassInitV { done: names_in(self.done@), failed: names_in(self.failed@) }
    }
}

fn contains_name(v: &Vec<String>, name: &str) -> (r: bool)
    ensures
        r == names_in(v@).contains(name@),
{
    let mut i: usize = 0;
    while i < v.len()
        invariant
            i <= v.len(),
            forall|j: int| 0 <= j < i ==> (#[trigger] v@[j])@ != name@,
        decreases v.len() - i,
    {
        if str_eq(v[i].as_str(), name) {
            assert(v@[i as int]@ == name@);
            return true;
        }
        i = i + 1;
    }
    false
}

fn without_name(v: &Vec<String>, name: &str) -> (w: Vec<String>)
    ensures
        names_in(w@) == names_in(v@).remove(name@),
{
    let mut w: Vec<String> = Vec::new();
    let mut i: usize = 0;
    proof {
        lemma_names_in_empty(w@);
        lemma_names_in_empty(v@.subrange(0, 0));
        assert(names_in(w@) =~= names_in(v@.subrange(0, 0)).remove(name@));
    }
    while i < v.len()
        invariant
            i <= v.len(),
            names_in(w@) == names_in(v@.subrange(0, i as int)).remove(name@),
        decreases v.len() - i,
    {
        let ghost before = w@;
        proof {
            assert(v@.subrange(0, i + 1) =~= v@.subrange(0, i as int).push(v@[i as int]));
            lemma_names_in_push(v@.subrange(0, i as int), v@[i as int]);
        }
        if !str_eq(v[i].as_str(), name) {
            let s = v[i].clone();
            proof {
                lemma_names_in_push(before, s);
            }
            w.push(s);
            assert(names_in(w@) =~= names_in(v@.subrange(0, i + 1)).remove(name@));
        } else {
            assert(names_in(w@) =~= names_in(v@.subrange(0, i + 1)).remove(name@));
        }
        i = i + 1;
    }
    assert(v@.subrange(0, v@.len() as int) =~= v@);
    w
}

impl ClassInitTable {
    pub open spec fn wf(&self) -> bool {
        init_table_wf(self@)
    }

    /// A table in which no class has been initialized.
    pub fn new() -> (t: Self)
        ensures
            t.wf(),
            t@.done == Set::<Seq<char>>::empty(),
            t@.failed == Set::<Seq<char>>::empty(),
    {
        let t = ClassInitTable { done: Vec::new(), failed: Vec::new() };
        proof {
            lemma_names_in_empty(t.done@);
            lemma_names_in_empty(t.failed@);
        }
        t
    }

    /// Ask to initialize the class `name`. A class already initialized (or
    /// being initialized) needs nothing; one whose initializer failed
    /// answers `NoClassDefFoundError`; any other is marked initialized and
    /// its initialization is to run.
    pub fn begin(&mut self, name: &str) -> (r: InitStart)
        requires
            old(self).wf(),
        ensures
            final(self).wf(),
            r@ == begin_outcome(old(self)@, name@),
            final(self)@ == after_begin(old(self)@, name@),
    {
        if contains_name(&self.done, name) {
            return InitStart::Initialized;
        }
        if contains_name(&self.failed, name) {
            return InitStart::Erroneous(no_class_def(name));
        }
        let s = name.to_owned();
        proof {
            lemma_names_in_push(self.done@, s);
        }
        self.done.push(s);
        InitStart::Started
    }

    /// Record that the initializer of `name` failed: the class is no longer
    /// initialized and is erroneous from now on. Returns the error that the
    /// failure raises.
    pub fn record_failure(&mut self, name: &str) -> (e: String)
        requires
            old(self).wf(),
        ensures
            final(self).wf(),
            final(self)@ == after_failure(old(self)@, name@),
            e@ == init_error_text(),
    {
        self.done = without_name(&self.done, name);
        if !contains_name(&self.failed, name) {
            let s = name.to_owned();
            proof {
                lemma_names_in_push(self.failed@, s);
            }
            self.failed.push(s);
        } else {
            assert(names_in(self.failed@).insert(name@) =~= names_in(self.failed@));
        }
        proof {
            assert(self@.done.disjoint(self@.failed));
        }
        "java/lang/ExceptionInInitializerError".to_owned()
    }
}

/// The classes to initialize before `c` itself, in order: its superclass
/// unless that is `java/lang/Object` (or there is none), then its direct
/// superinterfaces.
pub open spec fn init_prerequisites_of(c: ClassFileV) -> Seq<Seq<char>> {
    let cp = c.constant_pool;
    let sup: Seq<Seq<char>> = if c.super_class != 0 && cp_class_name(cp, c.super_class)
        != Some("java/lang/Object"@) {
        seq![cp_class_name(cp, c.super_class).unwrap()]
    } else {
        Seq::empty()
    };
    sup + c.interfaces.map_values(|i: u16| cp_class_name(cp, i).unwrap())
}

/// The supertypes of `c` name classes in its constant pool.
pub open spec fn supertypes_named(c: ClassFileV) -> bool {
    &&& c.super_class != 0 ==> cp_class_name(c.constant_pool, c.super_class) is Some
    &&& forall|k: int| 0 <= k < c.interfaces.len() ==> (#[trigger] cp_class_name(
        c.constant_pool,
        c.interfaces[k],
    )) is Some
}

/// The classes to initialize before `cf`, as `init_prerequisites_of` says.
pub fn init_prerequisites(cf: &ClassFile) -> (r: Vec<String>)
    requires
        supertypes_named(cf@),
    ensures
        r@.map_values(|s: String| s@) == init_prerequisites_of(cf@),
{
    let cp = &cf.constant_pool;
    let ghost c = cf@;
    let mut r: Vec<String> = Vec::new();
    if cf.super_class != 0 {
        let s = cp.class_name(cf.super_class);
        if !str_eq(s, "java/lang/Object") {
            r.push(s.to_owned());
        }
    }
    let ghost sup = r@.map_values(|s: String| s@);
    let mut i: usize = 0;
    while i < cf.interfaces.len()
        invariant
            c == cf@,
            c.constant_pool == cp@,
            supertypes_named(c),
            i <= c.interfaces.len(),
            sup.len() <= 1,
            r@.len() == sup.len() + i,
            r@.map_values(|s: String| s@) == sup + c.interfaces.subrange(0, i as int).map_values(
                |k: u16| cp_class_name(c.constant_pool, k).unwrap(),
            ),
            init_prerequisites_of(c) == sup + c.interfaces.map_values(
                |k: u16| cp_class_name(c.constant_pool, k).unwrap(),
            ),
        decreases cf.interfaces.len() - i,
    {
        let idx = cf.interfaces[i];
        assert(cp_class_name(c.constant_pool, c.interfaces[i as int]) is Some);
        let s = cp.class_name(idx);
        let ghost before = r@;
        r.push(s.to_owned());
        proof {
            let f = |k: u16| cp_class_name(c.constant_pool, k).unwrap();
            assert(c.interfaces.subrange(0, i + 1) =~= c.interfaces.subrange(0, i as int).push(idx));
            assert(c.interfaces.subrange(0, i + 1).map_values(f) =~= c.interfaces.subrange(
                0,
                i as int,
            ).map_values(f).push(s@));
            assert(r@.map_values(|s: String| s@) =~= before.map_values(|s: String| s@).push(s@));
        }
        assert(r@.map_values(|s: String| s@) =~= sup + c.interfaces.subrange(0, i + 1).map_values(
            |k: u16| cp_class_name(c.constant_pool, k).unwrap(),
        ));
        i = i + 1;
    }
    assert(c.interfaces.subrange(0, c.interfaces.len() as int) =~= c.interfaces);
    r
}

/// Whether the class itself (not a superclass: `<clinit>` is not
/// inherited) declares a class initializer: a method named `<clinit>` with
/// descriptor `()V`.
pub fn declares_clinit(cf: &ClassFile) -> (r: bool)
    requires
        member_scan_ok(cf@.constant_pool, cf@.methods, "<clinit>"@, "()V"@),
    ensures
        r == member_position(cf@.constant_pool, cf@.methods, "<clinit>"@, "()V"@) is Some,
{
    assert(cf@.methods =~= cf.methods@.map_values(|m: MethodInfo| m@));
    find_method_index(&cf.constant_pool, &cf.methods, "<clinit>", "()V").is_some()
}

/// A class whose initializer failed stays erroneous: every later request
/// to initialize it answers `NoClassDefFoundError` and changes nothing.
pub proof fn law_failed_init_stays_erroneous(t: ClassInitV, name: Seq<char>)
    requires
        init_table_wf(t),
    ensures
        init_table_wf(after_failure(t, name)),
        begin_outcome(after_failure(t, name), name) == InitStartV::Erroneous(no_class_def_text(name)),
        after_begin(after_failure(t, name), name) == after_failure(t, name),
{
}

/// A request that starts the initialization of a class leaves it marked:
/// a second request, such as one made while its initializer runs, finds it
/// initialized and does not run the initializer again.
pub proof fn law_begin_guards_recursion(t: ClassInitV, name: Seq<char>)
    requires
        init_table_wf(t),
    ensures
        init_table_wf(after_begin(t, name)),
        begin_outcome(t, name) == InitStartV::Started ==> begin_outcome(after_begin(t, name), name)
            == InitStartV::Initialized,
        after_begin(after_begin(t, name), name) == after_begin(t, name),
{
}

/// What is decided for one class leaves every other class's answer as it
/// was.
pub proof fn law_init_is_per_class(t: ClassInitV, name: Seq<char>, other: Seq<char>)
    requires
        init_table_wf(t),
        other != name,
    ensures
        begin_outcome(after_begin(t, name), other) == begin_outcome(t, other),
        begin_outcome(after_failure(t, name), other) == begin_outcome(t, other),
{
}

} // verus!
