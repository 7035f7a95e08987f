//! Classes and resources of JAR (ZIP) archives, read lazily.
//!
//! Loading a JAR reads only the names of its entries: `<name>.class`
//! entries become classes named by their path, other non-directory entries
//! become resources. An entry is decompressed when it is first read.

use vstd::prelude::*;
use std::io::Cursor;
use zip::ZipArchive;
use crate::text::{chars_of, push_char, push_nat_text, str_eq};

verus! {

/// `std::io::Cursor`, the in-memory reader an archive reads from; opaque.
#[verifier::external_type_specification]
#[verifier::external_body]
#[verifier::reject_recursive_types(T)]
pub struct ExCursor<T>(std::io::Cursor<T>);

/// `zip::ZipArchive`, an archive whose central directory has been read;
/// opaque, known through the names of its entries and their contents.
#[verifier::external_type_specification]
#[verifier::external_body]
#[verifier::reject_recursive_types(R)]
pub struct ExZipArchive<R>(zip::ZipArchive<R>);

pub type JarArchive = ZipArchive<Cursor<Vec<u8>>>;

/// The names of the entries of an archive, in central-directory order.
pub uninterp spec fn zip_entry_names(a: ZipArchive<Cursor<Vec<u8>>>) -> Seq<Seq<char>>;

/// The decompressed contents of the entries of an archive.
pub uninterp spec fn zip_entry_data(a: ZipArchive<Cursor<Vec<u8>>>) -> Seq<Seq<u8>>;

/// Whether `ZipArchive::by_index` succeeds on each entry of an archive (it
/// fails on an encrypted entry or one of an unsupported kind).
pub uninterp spec fn zip_entry_opens(a: ZipArchive<Cursor<Vec<u8>>>) -> Seq<bool>;

/// Whether each entry of an archive can be read whole: `by_index` succeeds
/// and decompressing its bytes to the end succeeds.
pub uninterp spec fn zip_entry_reads(a: ZipArchive<Cursor<Vec<u8>>>) -> Seq<bool>;

/// What `ZipArchive::new` reads from `bytes`: the names of the entries,
/// their decompressed contents, which entries open and which read whole,
/// or `None` when it refuses the bytes. It depends on the bytes alone.
pub uninterp spec fn zip_contents(bytes: Seq<u8>) -> Option<(Seq<Seq<char>>, Seq<Seq<u8>>, Seq<bool>, Seq<bool>)>;

/// Reads an archive from bytes (`ZipArchive::new`); the error is the text
/// of the `ZipError`. Whether it succeeds, and the entries of the archive,
/// are those that `zip_contents` names for the bytes.
#[verifier::external_body]
fn open_zip(bytes: Vec<u8>) -> (r: Result<JarArchive, String>)
    ensures
        r is Ok <==> zip_contents(bytes@) is Some,
        r matches Ok(a) ==> zip_contents(bytes@) == Some(
            (zip_entry_names(a), zip_entry_data(a), zip_entry_opens(a), zip_entry_reads(a)),
        ),
{
    ZipArchive::new(Cursor::new(bytes)).map_err(|e| e.to_string())
}

/// The number of entries (`ZipArchive::len`).
#[verifier::external_body]
fn zip_len(a: &JarArchive) -> (n: usize)
    ensures
        n == zip_entry_names(*a).len(),
{
    a.len()
}

/// The name of entry `i` (`ZipArchive::by_index`, then `ZipFile::name`),
/// which comes from the central directory; `by_index` fails (the text of
/// the `ZipError`) exactly on an index past the end or an entry that does
/// not open. The entries are unchanged.
#[verifier::external_body]
fn zip_entry_name(a: &mut JarArchive, i: usize) -> (r: Result<String, String>)
    ensures
        zip_entry_names(*final(a)) == zip_entry_names(*old(a)),
        zip_entry_data(*final(a)) == zip_entry_data(*old(a)),
        zip_entry_opens(*final(a)) == zip_entry_opens(*old(a)),
        zip_entry_reads(*final(a)) == zip_entry_reads(*old(a)),
        r is Ok <==> (i < zip_entry_names(*old(a)).len() && zip_entry_opens(*old(a))[i as int]),
        r matches Ok(s) ==> i < zip_entry_names(*old(a)).len() && s@ == zip_entry_names(*old(a))[i as int],
{
    a.by_index(i).map(|f| f.name().to_owned()).map_err(|e| e.to_string())
}

/// Why reading an entry failed.
pub enum EntryReadError {
    /// `ZipArchive::by_index` failed, with the text of the `ZipError`.
    Entry(String),
    /// Reading the decompressed bytes failed, with the text of the I/O error.
    Read(String),
}

/// The decompressed bytes of entry `i` (`ZipArchive::by_index`, then
/// `Read::read_to_end`); it succeeds exactly on an entry that reads whole.
/// The entries are unchanged.
#[verifier::external_body]
fn zip_entry_bytes(a: &mut JarArchive, i: usize) -> (r: Result<Vec<u8>, EntryReadError>)
    ensures
        zip_entry_names(*final(a)) == zip_entry_names(*old(a)),
        zip_entry_data(*final(a)) == zip_entry_data(*old(a)),
        zip_entry_opens(*final(a)) == zip_entry_opens(*old(a)),
        zip_entry_reads(*final(a)) == zip_entry_reads(*old(a)),
        r is Ok <==> (i < zip_entry_names(*old(a)).len() && zip_entry_reads(*old(a))[i as int]),
        r matches Ok(v) ==> i < zip_entry_data(*old(a)).len() && v@ == zip_entry_data(*old(a))[i as int],
{
    let mut file = a.by_index(i).map_err(|e| EntryReadError::Entry(e.to_string()))?;
    let mut buf = Vec::new();
    std::io::Read::read_to_end(&mut file, &mut buf).map_err(|e| EntryReadError::Read(e.to_string()))?;
    Ok(buf)
}

/// Where an entry of a loaded JAR is.
#[derive(Debug, Clone)]
pub struct JarEntryRef {
    pub jar_id: usize,
    pub entry_index: usize,
    pub entry_name: String,
}

pub struct JarEntryV {
    pub jar_id: nat,
    pub entry_index: nat,
    pub entry_name: Seq<char>,
}

pub open spec fn entry_view(e: JarEntryRef) -> JarEntryV {
    JarEntryV { jar_id: e.jar_id as nat, entry_index: e.entry_index as nat, entry_name: e.entry_name@ }
}

pub open spec fn ends_with(s: Seq<char>, suffix: Seq<char>) -> bool {
    suffix.len() <= s.len() && s.subrange(s.len() - suffix.len(), s.len() as int) == suffix
}

/// The class an entry name stands for: `<class>.class` with a non-empty
/// `<class>`.
pub open spec fn class_of_entry(name: Seq<char>) -> Option<Seq<char>> {
    if ends_with(name, ".class"@) && name.len() > ".class"@.len() {
        Some(name.subrange(0, name.len() - ".class"@.len()))
    } else {
        None
    }
}

/// Whether an entry name is a resource: neither a `.class` entry nor a
/// directory.
pub open spec fn is_resource_entry(name: Seq<char>) -> bool {
    !ends_with(name, ".class"@) && !ends_with(name, "/"@)
}

/// The classes among the first `n` entry names of JAR `jar_id`.
pub open spec fn jar_classes(names: Seq<Seq<char>>, jar_id: nat, n: int) -> Seq<(Seq<char>, JarEntryV)>
    decreases n,
{
    if n <= 0 {
        Seq::empty()
    } else {
        let prev = jar_classes(names, jar_id, n - 1);
        match class_of_entry(names[n - 1]) {
            Some(c) => prev.push(
                (c, JarEntryV { jar_id, entry_index: (n - 1) as nat, entry_name: names[n - 1] }),
            ),
            None => prev,
        }
    }
}

/// The resources among the first `n` entry names of JAR `jar_id`.
pub open spec fn jar_resources(names: Seq<Seq<char>>, jar_id: nat, n: int) -> Seq<(Seq<char>, JarEntryV)>
    decreases n,
{
    if n <= 0 {
        Seq::empty()
    } else {
        let prev = jar_resources(names, jar_id, n - 1);
        if is_resource_entry(names[n - 1]) {
            prev.push(
                (names[n - 1], JarEntryV { jar_id, entry_index: (n - 1) as nat, entry_name: names[n - 1] }),
            )
        } else {
            prev
        }
    }
}

/// Whether some pair of the list has key `k`.
pub open spec fn has_key<V>(list: Seq<(Seq<char>, V)>, k: Seq<char>) -> bool {
    exists|i: int| 0 <= i < list.len() && #[trigger] list[i].0 == k
}

/// The list without the pairs whose key is `k`.
pub open spec fn without_key<V>(list: Seq<(Seq<char>, V)>, k: Seq<char>) -> Seq<(Seq<char>, V)>
    decreases list.len(),
{
    if list.len() == 0 {
        list
    } else {
        let r = without_key(list.drop_last(), k);
        if list.last().0 == k {
            r
        } else {
            r.push(list.last())
        }
    }
}

/// Pending resources after the resources `es` of a loaded JAR are recorded
/// in order (a later entry of the same name replacing an earlier one).
pub open spec fn add_pending(
    p: Seq<(Seq<char>, JarEntryV)>,
    es: Seq<(Seq<char>, JarEntryV)>,
) -> Seq<(Seq<char>, JarEntryV)>
    decreases es.len(),
{
    if es.len() == 0 {
        p
    } else {
        without_key(add_pending(p, es.drop_last()), es.last().0).push(es.last())
    }
}

/// Read resources after the resources `es` of a loaded JAR replace them.
pub open spec fn drop_read(r: Seq<(Seq<char>, Seq<u8>)>, es: Seq<(Seq<char>, JarEntryV)>) -> Seq<
    (Seq<char>, Seq<u8>),
>
    decreases es.len(),
{
    if es.len() == 0 {
        r
    } else {
        without_key(drop_read(r, es.drop_last()), es.last().0)
    }
}

/// No key occurs twice.
pub open spec fn keys_unique<V>(list: Seq<(Seq<char>, V)>) -> bool {
    forall|i: int, j: int| 0 <= i < j < list.len() ==> #[trigger] list[i].0 != #[trigger] list[j].0
}

/// The value paired with `k`.
pub open spec fn value_of<V>(list: Seq<(Seq<char>, V)>, k: Seq<char>) -> V {
    list[choose|i: int| 0 <= i < list.len() && #[trigger] list[i].0 == k].1
}

/// A resource name with one leading `/` dropped.
pub open spec fn normalized_resource(name: Seq<char>) -> Seq<char> {
    if name.len() > 0 && name[0] == '/' {
        name.drop_first()
    } else {
        name
    }
}

pub open spec fn missing_store_text(name: Seq<char>) -> Seq<char> {
    "Missing JAR backing store for "@ + name
}

/// Whether the JAR entry `e` is there under the name it was recorded with,
/// opens and reads whole.
pub open spec fn entry_readable(
    e: JarEntryV,
    names: Seq<Seq<Seq<char>>>,
    opens: Seq<Seq<bool>>,
    reads: Seq<Seq<bool>>,
) -> bool {
    &&& e.jar_id < names.len()
    &&& e.entry_index < names[e.jar_id as int].len()
    &&& names[e.jar_id as int][e.entry_index as int] == e.entry_name
    &&& opens[e.jar_id as int][e.entry_index as int]
    &&& reads[e.jar_id as int][e.entry_index as int]
}

pub open spec fn mismatch_text(index: nat, expected: Seq<char>, found: Seq<char>) -> Seq<char> {
    "ZIP entry mismatch at index "@ + crate::text::nat_text(index) + ": expected "@ + expected
        + ", found "@ + found
}

/// Whether `e` is `prefix` followed by some text.
pub open spec fn starts_with_text(e: Seq<char>, prefix: Seq<char>) -> bool {
    prefix.len() <= e.len() && e.subrange(0, prefix.len() as int) == prefix
}

proof fn lemma_without_key_absent<V>(list: Seq<(Seq<char>, V)>, k: Seq<char>)
    requires
        !has_key(list, k),
    ensures
        without_key(list, k) == list,
    decreases list.len(),
{
    if list.len() > 0 {
        assert(list.last().0 != k) by {
            assert(list[list.len() - 1].0 == list.last().0);
        }
        assert(!has_key(list.drop_last(), k)) by {
            if has_key(list.drop_last(), k) {
                let i = choose|i: int| 0 <= i < list.drop_last().len() && #[trigger] list.drop_last()[i].0 == k;
                assert(list[i].0 == k);
            }
        }
        lemma_without_key_absent(list.drop_last(), k);
        assert(list.drop_last().push(list.last()) =~= list);
    }
}

proof fn lemma_without_key_at<V>(list: Seq<(Seq<char>, V)>, i: int)
    requires
        keys_unique(list),
        0 <= i < list.len(),
    ensures
        without_key(list, list[i].0) == list.remove(i),
    decreases list.len(),
{
    let k = list[i].0;
    let d = list.drop_last();
    if i == list.len() - 1 {
        assert(!has_key(d, k)) by {
            if has_key(d, k) {
                let j = choose|j: int| 0 <= j < d.len() && #[trigger] d[j].0 == k;
                assert(list[j].0 == k);
            }
        }
        lemma_without_key_absent(d, k);
        assert(list.remove(i) =~= d);
    } else {
        assert(keys_unique(d)) by {
            assert forall|a: int, b: int| 0 <= a < b < d.len() implies #[trigger] d[a].0 != #[trigger] d[b].0 by {
                assert(list[a].0 != list[b].0);
            }
        }
        assert(d[i] == list[i]);
        lemma_without_key_at(d, i);
        assert(list.last().0 != k) by {
            assert(list[list.len() - 1].0 != list[i].0);
        }
        assert(d.remove(i).push(list.last()) =~= list.remove(i));
    }
}

proof fn lemma_value_at<V>(list: Seq<(Seq<char>, V)>, i: int)
    requires
        keys_unique(list),
        0 <= i < list.len(),
    ensures
        has_key(list, list[i].0),
        value_of(list, list[i].0) == list[i].1,
{
    let k = list[i].0;
    assert(has_key(list, k));
    let j = choose|j: int| 0 <= j < list.len() && #[trigger] list[j].0 == k;
    if j != i {
        if j < i {
            assert(list[j].0 != list[i].0);
        } else {
            assert(list[i].0 != list[j].0);
        }
    }
}

proof fn lemma_without_key_props<V>(list: Seq<(Seq<char>, V)>, k: Seq<char>)
    requires
        keys_unique(list),
    ensures
        keys_unique(without_key(list, k)),
        !has_key(without_key(list, k), k),
        forall|j: int| 0 <= j < without_key(list, k).len() ==> has_key(list, #[trigger] without_key(list, k)[j].0),
    decreases list.len(),
{
    if list.len() > 0 {
        let d = list.drop_last();
        assert(keys_unique(d)) by {
            assert forall|a: int, b: int| 0 <= a < b < d.len() implies #[trigger] d[a].0 != #[trigger] d[b].0 by {
                assert(list[a].0 != list[b].0);
            }
        }
        lemma_without_key_props(d, k);
        let r = without_key(d, k);
        assert forall|j: int| 0 <= j < r.len() implies has_key(list, #[trigger] r[j].0) by {
            assert(has_key(d, r[j].0));
            let q = choose|q: int| 0 <= q < d.len() && #[trigger] d[q].0 == r[j].0;
            assert(list[q].0 == r[j].0);
        }
        if list.last().0 != k {
            let w = r.push(list.last());
            assert(!has_key(r, list.last().0)) by {
                if has_key(r, list.last().0) {
                    let j = choose|j: int| 0 <= j < r.len() && #[trigger] r[j].0 == list.last().0;
                    assert(has_key(d, r[j].0));
                    let q = choose|q: int| 0 <= q < d.len() && #[trigger] d[q].0 == r[j].0;
                    assert(list[q].0 != list[list.len() - 1].0);
                }
            }
            assert forall|a: int, b: int| 0 <= a < b < w.len() implies #[trigger] w[a].0 != #[trigger] w[b].0 by {
                if b == w.len() - 1 {
                    assert(w[a] == r[a]);
                } else {
                    assert(w[a] == r[a]);
                    assert(w[b] == r[b]);
                }
            }
            assert(!has_key(w, k)) by {
                if has_key(w, k) {
                    let j = choose|j: int| 0 <= j < w.len() && #[trigger] w[j].0 == k;
                    if j < r.len() {
                        assert(w[j] == r[j]);
                    }
                }
            }
            assert forall|j: int| 0 <= j < w.len() implies has_key(list, #[trigger] w[j].0) by {
                if j < r.len() {
                    assert(w[j] == r[j]);
                } else {
                    assert(list[list.len() - 1].0 == w[j].0);
                }
            }
        }
    }
}

/// Whether `s` ends with `suffix`.
fn ends_with_chars(s: &Vec<char>, suffix: &Vec<char>) -> (r: bool)
    ensures
        r == ends_with(s@, suffix@),
{
    if suffix.len() > s.len() {
        return false;
    }
    let off = s.len() - suffix.len();
    let mut i: usize = 0;
    while i < suffix.len()
        invariant
            off + suffix@.len() == s@.len(),
            s@.len() == s.len(),
            i <= suffix@.len(),
            forall|k: int| 0 <= k < i ==> s@[off + k] == suffix@[k],
        decreases suffix@.len() - i,
    {
        if s[off + i] != suffix[i] {
            assert(s@.subrange(off as int, s@.len() as int)[i as int] != suffix@[i as int]);
            return false;
        }
        i = i + 1;
    }
    assert(s@.subrange(off as int, s@.len() as int) =~= suffix@);
    true
}

fn string_from(s: &Vec<char>, lo: usize, hi: usize) -> (r: String)
    requires
        lo <= hi <= s@.len(),
    ensures
        r@ == s@.subrange(lo as int, hi as int),
{
    let mut r = String::new();
    let mut i = lo;
    while i < hi
        invariant
            lo <= i <= hi <= s@.len(),
            r@ == s@.subrange(lo as int, i as int),
        decreases hi - i,
    {
        push_char(&mut r, s[i]);
        assert(s@.subrange(lo as int, i as int + 1) =~= s@.subrange(lo as int, i as int).push(s@[i as int]));
        i = i + 1;
    }
    r
}

/// The class an entry name stands for, if it is a `<class>.class` entry.
pub fn class_of_entry_name(name: &str) -> (r: Option<String>)
    ensures
        match r {
            Some(c) => class_of_entry(name@) == Some(c@),
            None => class_of_entry(name@) is None,
        },
{
    let cs = chars_of(name);
    let suffix = chars_of(".class");
    if ends_with_chars(&cs, &suffix) && cs.len() > suffix.len() {
        Some(string_from(&cs, 0, cs.len() - suffix.len()))
    } else {
        None
    }
}

/// Whether an entry name is a resource: neither a `.class` entry nor a
/// directory.
pub fn is_resource_entry_name(name: &str) -> (r: bool)
    ensures
        r == is_resource_entry(name@),
{
    let cs = chars_of(name);
    !ends_with_chars(&cs, &chars_of(".class")) && !ends_with_chars(&cs, &chars_of("/"))
}

/// A resource name with one leading `/` dropped.
pub fn normalize_resource_name(name: &str) -> (r: String)
    ensures
        r@ == normalized_resource(name@),
{
    let cs = chars_of(name);
    if cs.len() > 0 && cs[0] == '/' {
        assert(cs@.subrange(1, cs@.len() as int) =~= cs@.drop_first());
        string_from(&cs, 1, cs.len())
    } else {
        assert(cs@.subrange(0, cs@.len() as int) =~= cs@);
        string_from(&cs, 0, cs.len())
    }
}

fn find_read<V>(list: &Vec<(String, V)>, k: &str) -> (r: Option<usize>)
    ensures
        match r {
            Some(i) => i < list@.len() && list@[i as int].0@ == k@,
            None => forall|i: int| 0 <= i < list@.len() ==> #[trigger] list@[i].0@ != k@,
        },
{
    let mut i: usize = 0;
    while i < list.len()
        invariant
            i <= list@.len(),
            forall|j: int| 0 <= j < i ==> #[trigger] list@[j].0@ != k@,
        decreases list@.len() - i,
    {
        if str_eq(list[i].0.as_str(), k) {
            return Some(i);
        }
        i = i + 1;
    }
    None
}

fn entry_ref_copy(e: &JarEntryRef) -> (r: JarEntryRef)
    ensures
        entry_view(r) == entry_view(*e),
{
    JarEntryRef { jar_id: e.jar_id, entry_index: e.entry_index, entry_name: e.entry_name.clone() }
}

fn bytes_copy(v: &Vec<u8>) -> (r: Vec<u8>)
    ensures
        r@ == v@,
{
    let mut r: Vec<u8> = Vec::new();
    let mut i: usize = 0;
    while i < v.len()
        invariant
            i <= v@.len(),
            r@ == v@.take(i as int),
        decreases v@.len() - i,
    {
        r.push(v[i]);
        assert(v@.take(i as int + 1) =~= v@.take(i as int).push(v@[i as int]));
        i = i + 1;
    }
    assert(v@.take(i as int) =~= v@);
    r
}

/// The archives of loaded JARs, and the resources they hold: those read
/// already, and those still compressed in their archive.
pub struct JarStore {
    archives: Vec<JarArchive>,
    resources: Vec<(String, Vec<u8>)>,
    pending_resources: Vec<(String, JarEntryRef)>,
}

impl JarStore {
    /// The entry names of each loaded JAR, by id.
    pub closed spec fn jar_names(&self) -> Seq<Seq<Seq<char>>> {
        self.archives@.map_values(|a: JarArchive| zip_entry_names(a))
    }

    /// The decompressed entries of each loaded JAR, by id.
    pub closed spec fn jar_data(&self) -> Seq<Seq<Seq<u8>>> {
        self.archives@.map_values(|a: JarArchive| zip_entry_data(a))
    }

    /// Which entries of each loaded JAR open, by id.
    pub closed spec fn jar_opens(&self) -> Seq<Seq<bool>> {
        self.archives@.map_values(|a: JarArchive| zip_entry_opens(a))
    }

    /// Which entries of each loaded JAR read whole, by id.
    pub closed spec fn jar_reads(&self) -> Seq<Seq<bool>> {
        self.archives@.map_values(|a: JarArchive| zip_entry_reads(a))
    }

    /// Resources read already, with their bytes.
    pub closed spec fn read_resources(&self) -> Seq<(Seq<char>, Seq<u8>)> {
        self.resources@.map_values(|p: (String, Vec<u8>)| (p.0@, p.1@))
    }

    /// Resources not read yet, with where they are.
    pub closed spec fn pending(&self) -> Seq<(Seq<char>, JarEntryV)> {
        self.pending_resources@.map_values(|p: (String, JarEntryRef)| (p.0@, entry_view(p.1)))
    }

    pub open spec fn wf(&self) -> bool {
        &&& keys_unique(self.read_resources())
        &&& keys_unique(self.pending())
        &&& self.jar_names().len() == self.jar_data().len()
        &&& self.jar_opens().len() == self.jar_names().len()
        &&& self.jar_reads().len() == self.jar_names().len()
    }

    /// A store with no JAR loaded.
    pub fn new() -> (s: JarStore)
        ensures
            s.wf(),
            s.jar_names() == Seq::<Seq<Seq<char>>>::empty(),
            s.read_resources() == Seq::<(Seq<char>, Seq<u8>)>::empty(),
            s.pending() == Seq::<(Seq<char>, JarEntryV)>::empty(),
    {
        let s = JarStore { archives: Vec::new(), resources: Vec::new(), pending_resources: Vec::new() };
        assert(s.jar_names() =~= Seq::<Seq<Seq<char>>>::empty());
        assert(s.read_resources() =~= Seq::<(Seq<char>, Seq<u8>)>::empty());
        assert(s.pending() =~= Seq::<(Seq<char>, JarEntryV)>::empty());
        s
    }

    /// Loads a JAR from its bytes. Returns the classes among its entries
    /// (each `<class>.class` entry, with a non-empty `<class>`), which the
    /// caller registers; every other entry that is not a directory becomes a
    /// pending resource, replacing one of the same name. Nothing changes
    /// when the archive or one of its entries cannot be read.
    pub fn load_jar(&mut self, jar_bytes: &[u8]) -> (r: Result<Vec<(String, JarEntryRef)>, String>)
        requires
            old(self).wf(),
        ensures
            final(self).wf(),
            r is Err ==> final(self).jar_names() == old(self).jar_names() && final(self).jar_data()
                == old(self).jar_data() && final(self).jar_opens() == old(self).jar_opens()
                && final(self).jar_reads() == old(self).jar_reads() && final(self).read_resources()
                == old(self).read_resources() && final(self).pending() == old(self).pending(),
            r matches Err(e) ==> starts_with_text(e@, "Invalid JAR/ZIP: "@) || starts_with_text(
                e@,
                "ZIP entry error: "@,
            ),
            zip_contents(jar_bytes@) is None ==> (r matches Err(e) && starts_with_text(e@, "Invalid JAR/ZIP: "@)),
            (zip_contents(jar_bytes@) matches Some(z) && forall|k: int| 0 <= k < z.0.len() ==> #[trigger] z.2[k])
                ==> r is Ok,
            r is Ok ==> zip_contents(jar_bytes@) == Some(
                (
                    final(self).jar_names()[old(self).jar_names().len() as int],
                    final(self).jar_data()[old(self).jar_names().len() as int],
                    final(self).jar_opens()[old(self).jar_names().len() as int],
                    final(self).jar_reads()[old(self).jar_names().len() as int],
                ),
            ),
            r matches Ok(classes) ==> {
                let id = old(self).jar_names().len();
                let names = final(self).jar_names()[id as int];
                let resources = jar_resources(names, id, names.len() as int);
                &&& final(self).jar_names().len() == id + 1
                &&& final(self).jar_names().take(id as int) == old(self).jar_names()
                &&& final(self).jar_data().take(id as int) == old(self).jar_data()
                &&& final(self).jar_opens().take(id as int) == old(self).jar_opens()
                &&& final(self).jar_reads().take(id as int) == old(self).jar_reads()
                &&& classes@.map_values(|p: (String, JarEntryRef)| (p.0@, entry_view(p.1))) == jar_classes(
                    names,
                    id,
                    names.len() as int,
                )
                &&& final(self).pending() == add_pending(old(self).pending(), resources)
                &&& final(self).read_resources() == drop_read(old(self).read_resources(), resources)
            },
    {
        let bytes = vstd::slice::slice_to_vec(jar_bytes);
        let mut archive = match open_zip(bytes) {
            Ok(a) => a,
            Err(e) => {
                let mut msg = String::new();
                msg.append("Invalid JAR/ZIP: ");
                msg.append(e.as_str());
                proof {
                    reveal_strlit("Invalid JAR/ZIP: ");
                    assert(msg@.subrange(0, "Invalid JAR/ZIP: "@.len() as int) =~= "Invalid JAR/ZIP: "@);
                }
                return Err(msg);
            },
        };
        let jar_id = self.archives.len();
        let n = zip_len(&archive);
        let ghost names = zip_entry_names(archive);
        let ghost data = zip_entry_data(archive);
        let ghost opens = zip_entry_opens(archive);
        let ghost reads = zip_entry_reads(archive);
        let mut classes: Vec<(String, JarEntryRef)> = Vec::new();
        let mut res: Vec<(String, JarEntryRef)> = Vec::new();
        let mut i: usize = 0;
        while i < n
            invariant
                *self == *old(self),
                old(self).wf(),
                jar_id == old(self).jar_names().len(),
                zip_entry_names(archive) == names,
                zip_entry_data(archive) == data,
                zip_entry_opens(archive) == opens,
                zip_entry_reads(archive) == reads,
                zip_contents(jar_bytes@) == Some((names, data, opens, reads)),
                forall|k: int| 0 <= k < i ==> #[trigger] opens[k],
                n == names.len(),
                i <= n,
                classes@.map_values(|p: (String, JarEntryRef)| (p.0@, entry_view(p.1))) == jar_classes(
                    names,
                    jar_id as nat,
                    i as int,
                ),
                res@.map_values(|p: (String, JarEntryRef)| (p.0@, entry_view(p.1))) == jar_resources(
                    names,
                    jar_id as nat,
                    i as int,
                ),
            decreases n - i,
        {
            let name = match zip_entry_name(&mut archive, i) {
                Ok(s) => s,
                Err(e) => {
                    let mut msg = String::new();
                    msg.append("ZIP entry error: ");
                    msg.append(e.as_str());
                    proof {
                        reveal_strlit("ZIP entry error: ");
                        assert(msg@.subrange(0, "ZIP entry error: "@.len() as int) =~= "ZIP entry error: "@);
                        assert(!opens[i as int]);
                        let z = zip_contents(jar_bytes@)->Some_0;
                        assert(z.2 == opens && z.0 == names);
                        assert(!(forall|k: int| 0 <= k < z.0.len() ==> #[trigger] z.2[k]));
                    }
                    return Err(msg);
                },
            };
            let entry = JarEntryRef { jar_id, entry_index: i, entry_name: name.clone() };
            let ghost cv = classes@;
            let ghost rv = res@;
            match class_of_entry_name(name.as_str()) {
                Some(c) => {
                    classes.push((c, entry));
                    assert(classes@.map_values(|p: (String, JarEntryRef)| (p.0@, entry_view(p.1))) =~= cv.map_values(
                        |p: (String, JarEntryRef)| (p.0@, entry_view(p.1)),
                    ).push((c@, entry_view(entry))));
                },
                None => {
                    if is_resource_entry_name(name.as_str()) {
                        res.push((name, entry));
                        assert(res@.map_values(|p: (String, JarEntryRef)| (p.0@, entry_view(p.1))) =~= rv.map_values(
                            |p: (String, JarEntryRef)| (p.0@, entry_view(p.1)),
                        ).push((name@, entry_view(entry))));
                    }
                },
            }
            proof {
                reveal_strlit(".class");
                reveal_strlit("/");
                assert(!(class_of_entry(names[i as int]) is Some && is_resource_entry(names[i as int])));
            }
            i = i + 1;
        }
        let ghost old_names = self.jar_names();
        let ghost old_data = self.jar_data();
        let ghost old_opens = self.jar_opens();
        let ghost old_reads = self.jar_reads();
        self.archives.push(archive);
        assert(self.jar_names() =~= old_names.push(names));
        assert(self.jar_data() =~= old_data.push(data));
        assert(self.jar_opens() =~= old_opens.push(opens));
        assert(self.jar_reads() =~= old_reads.push(reads));
        let ghost rs = res@.map_values(|p: (String, JarEntryRef)| (p.0@, entry_view(p.1)));
        let mut k: usize = 0;
        assert(rs.take(0) =~= Seq::<(Seq<char>, JarEntryV)>::empty());
        while k < res.len()
            invariant
                k <= res@.len(),
                rs == res@.map_values(|p: (String, JarEntryRef)| (p.0@, entry_view(p.1))),
                self.jar_names() == old_names.push(names),
                self.jar_data() == old_data.push(data),
                self.jar_opens() == old_opens.push(opens),
                self.jar_reads() == old_reads.push(reads),
                old_opens == old(self).jar_opens(),
                old_reads == old(self).jar_reads(),
                old_names == old(self).jar_names(),
                old_data == old(self).jar_data(),
                self.wf(),
                self.pending() == add_pending(old(self).pending(), rs.take(k as int)),
                self.read_resources() == drop_read(old(self).read_resources(), rs.take(k as int)),
            decreases res@.len() - k,
        {
            let name = &res[k].0;
            let ghost nv = name@;
            assert(rs[k as int].0 == nv);
            assert(rs.take(k as int + 1).drop_last() =~= rs.take(k as int));
            let ghost rd0 = self.read_resources();
            match find_read(&self.resources, name.as_str()) {
                Some(j) => {
                    let ghost before = self.resources@;
                    self.resources.remove(j);
                    proof {
                        assert(rd0[j as int].0 == nv);
                        lemma_without_key_at(rd0, j as int);
                        assert(self.read_resources() =~= rd0.remove(j as int));
                        lemma_without_key_props(rd0, nv);
                    }
                },
                None => {
                    proof {
                        assert(!has_key(rd0, nv)) by {
                            if has_key(rd0, nv) {
                                let q = choose|q: int| 0 <= q < rd0.len() && #[trigger] rd0[q].0 == nv;
                                assert(self.resources@[q].0@ == nv);
                            }
                        }
                        lemma_without_key_absent(rd0, nv);
                    }
                },
            }
            let ghost pd0 = self.pending();
            match find_read(&self.pending_resources, name.as_str()) {
                Some(j) => {
                    self.pending_resources.remove(j);
                    proof {
                        assert(pd0[j as int].0 == nv);
                        lemma_without_key_at(pd0, j as int);
                        assert(self.pending() =~= pd0.remove(j as int));
                    }
                },
                None => {
                    proof {
                        assert(!has_key(pd0, nv)) by {
                            if has_key(pd0, nv) {
                                let q = choose|q: int| 0 <= q < pd0.len() && #[trigger] pd0[q].0 == nv;
                                assert(self.pending_resources@[q].0@ == nv);
                            }
                        }
                        lemma_without_key_absent(pd0, nv);
                    }
                },
            }
            proof {
                lemma_without_key_props(pd0, nv);
            }
            let ghost pd1 = self.pending();
            let e = entry_ref_copy(&res[k].1);
            self.pending_resources.push((name.clone(), e));
            proof {
                assert(self.pending() =~= pd1.push(rs[k as int]));
                let w = self.pending();
                assert forall|a: int, b: int| 0 <= a < b < w.len() implies #[trigger] w[a].0 != #[trigger] w[b].0 by {
                    if b == w.len() - 1 {
                        assert(w[a] == pd1[a]);
                        if pd1[a].0 == nv {
                            assert(has_key(pd1, nv));
                        }
                    } else {
                        assert(w[a] == pd1[a]);
                        assert(w[b] == pd1[b]);
                    }
                }
            }
            k = k + 1;
        }
        assert(rs.take(k as int) =~= rs);
        Ok(classes)
    }

    /// The decompressed bytes of a JAR entry, checked against the name the
    /// entry was recorded with.
    pub fn read_jar_entry(&mut self, entry: &JarEntryRef) -> (r: Result<Vec<u8>, String>)
        requires
            old(self).wf(),
        ensures
            final(self).wf(),
            final(self).jar_names() == old(self).jar_names(),
            final(self).jar_data() == old(self).jar_data(),
            final(self).jar_opens() == old(self).jar_opens(),
            final(self).jar_reads() == old(self).jar_reads(),
            final(self).read_resources() == old(self).read_resources(),
            final(self).pending() == old(self).pending(),
            ({
                let e = entry_view(*entry);
                let names = old(self).jar_names();
                let found = names[e.jar_id as int][e.entry_index as int];
                &&& e.jar_id >= names.len() ==> (r matches Err(m) && m@ == missing_store_text(
                    e.entry_name,
                ))
                &&& r matches Ok(v) ==> e.jar_id < names.len() && e.entry_index < names[e.jar_id as int].len()
                    && found == e.entry_name && e.entry_index < old(self).jar_data()[e.jar_id as int].len()
                    && v@ == old(self).jar_data()[e.jar_id as int][e.entry_index as int]
                &&& e.jar_id < names.len() && e.entry_index < names[e.jar_id as int].len() && found
                    != e.entry_name ==> r is Err
                &&& entry_readable(e, names, old(self).jar_opens(), old(self).jar_reads()) ==> (r matches Ok(v)
                    && v@ == old(self).jar_data()[e.jar_id as int][e.entry_index as int])
                &&& r is Ok ==> entry_readable(e, names, old(self).jar_opens(), old(self).jar_reads())
                &&& r matches Err(m) ==> (m@ == missing_store_text(e.entry_name) ==> e.jar_id >= names.len())
                &&& r matches Err(m) ==> m@ == missing_store_text(e.entry_name) || starts_with_text(
                    m@,
                    "ZIP entry error for "@ + e.entry_name + ": "@,
                ) || m@ == mismatch_text(e.entry_index, e.entry_name, found) || starts_with_text(
                    m@,
                    "Read error for "@ + e.entry_name + ": "@,
                )
            }),
    {
        proof {
            reveal_strlit("ZIP entry error for ");
            reveal_strlit("Read error for ");
            reveal_strlit(": ");
            reveal_strlit("Missing JAR backing store for ");
            reveal_strlit("ZIP entry mismatch at index ");
        }
        if entry.jar_id >= self.archives.len() {
            let mut msg = String::new();
            msg.append("Missing JAR backing store for ");
            msg.append(entry.entry_name.as_str());
            return Err(msg);
        }
        let ghost names0 = self.jar_names();
        let ghost data0 = self.jar_data();
        let ghost opens0 = self.jar_opens();
        let ghost reads0 = self.jar_reads();
        let ghost arch0 = self.archives@;
        let archive = &mut self.archives[entry.jar_id];
        let name_result = zip_entry_name(archive, entry.entry_index);
        let found = match name_result {
            Ok(found) => found,
            Err(e) => {
                proof {
                    assert(self.jar_names() =~= names0);
                    assert(self.jar_data() =~= data0);
                }
                let mut msg = String::new();
                msg.append("ZIP entry error for ");
                msg.append(entry.entry_name.as_str());
                msg.append(": ");
                let ghost head = msg@;
                msg.append(e.as_str());
                assert(msg@.subrange(0, head.len() as int) =~= head);
                assert(msg@[0] == 'Z');
                assert(missing_store_text(entry.entry_name@)[0] == 'M');
                return Err(msg);
            },
        };
        proof {
            assert(self.jar_names() =~= names0);
            assert(self.jar_data() =~= data0);
            assert(self.jar_opens() =~= opens0);
            assert(self.jar_reads() =~= reads0);
        }
        if !str_eq(found.as_str(), entry.entry_name.as_str()) {
            let mut msg = String::new();
            msg.append("ZIP entry mismatch at index ");
            push_nat_text(&mut msg, entry.entry_index as u64);
            msg.append(": expected ");
            msg.append(entry.entry_name.as_str());
            msg.append(", found ");
            msg.append(found.as_str());
            assert(msg@[0] == 'Z');
            assert(missing_store_text(entry.entry_name@)[0] == 'M');
            return Err(msg);
        }
        let archive = &mut self.archives[entry.jar_id];
        let bytes_result = zip_entry_bytes(archive, entry.entry_index);
        proof {
            assert(self.jar_names() =~= names0);
            assert(self.jar_data() =~= data0);
            assert(self.jar_opens() =~= opens0);
            assert(self.jar_reads() =~= reads0);
        }
        match bytes_result {
            Ok(v) => {
                proof {
                    let j = entry.jar_id as int;
                    let k = entry.entry_index as int;
                    assert(opens0[j] == zip_entry_opens(arch0[j]));
                    assert(opens0[j][k]);
                    assert(reads0[j][k]);
                    assert(names0[j][k] == entry.entry_name@);
                    assert(entry_readable(entry_view(*entry), names0, opens0, reads0));
                }
                Ok(v)
            },
            Err(EntryReadError::Entry(e)) => {
                let mut msg = String::new();
                msg.append("ZIP entry error for ");
                msg.append(entry.entry_name.as_str());
                msg.append(": ");
                let ghost head = msg@;
                msg.append(e.as_str());
                assert(msg@.subrange(0, head.len() as int) =~= head);
                assert(msg@[0] != missing_store_text(entry.entry_name@)[0]);
                Err(msg)
            },
            Err(EntryReadError::Read(e)) => {
                let mut msg = String::new();
                msg.append("Read error for ");
                msg.append(entry.entry_name.as_str());
                msg.append(": ");
                let ghost head = msg@;
                msg.append(e.as_str());
                assert(msg@.subrange(0, head.len() as int) =~= head);
                assert(msg@[0] != missing_store_text(entry.entry_name@)[0]);
                Err(msg)
            },
        }
    }

    /// Whether a resource of that name (a leading `/` dropped) was loaded.
    pub fn has_resource(&self, name: &str) -> (r: bool)
        ensures
            r == (has_key(self.read_resources(), normalized_resource(name@)) || has_key(
                self.pending(),
                normalized_resource(name@),
            )),
    {
        let normalized = normalize_resource_name(name);
        let ghost n = normalized@;
        proof {
            if has_key(self.read_resources(), n) {
                let q = choose|q: int| 0 <= q < self.read_resources().len() && #[trigger] self.read_resources()[q].0 == n;
                assert(self.resources@[q].0@ == n);
            }
            if has_key(self.pending(), n) {
                let q = choose|q: int| 0 <= q < self.pending().len() && #[trigger] self.pending()[q].0 == n;
                assert(self.pending_resources@[q].0@ == n);
            }
        }
        let in_read = match find_read(&self.resources, normalized.as_str()) {
            Some(i) => {
                assert(self.read_resources()[i as int].0 == n);
                true
            },
            None => false,
        };
        let in_pending = match find_read(&self.pending_resources, normalized.as_str()) {
            Some(i) => {
                assert(self.pending()[i as int].0 == n);
                true
            },
            None => false,
        };
        in_read || in_pending
    }

    /// The bytes of a resource (a leading `/` dropped from its name): those
    /// read already, or else those of its JAR entry, which are then kept as
    /// read; `None` when no loaded JAR has it.
    pub fn read_resource(&mut self, name: &str) -> (r: Result<Option<Vec<u8>>, String>)
        requires
            old(self).wf(),
        ensures
            final(self).wf(),
            final(self).jar_names() == old(self).jar_names(),
            final(self).jar_data() == old(self).jar_data(),
            final(self).jar_opens() == old(self).jar_opens(),
            final(self).jar_reads() == old(self).jar_reads(),
            ({
                let n = normalized_resource(name@);
                let rd = old(self).read_resources();
                let pd = old(self).pending();
                &&& has_key(rd, n) ==> (r matches Ok(Some(v)) && v@ == value_of(rd, n))
                &&& !has_key(rd, n) && !has_key(pd, n) ==> (r matches Ok(None))
                &&& !has_key(rd, n) && has_key(pd, n) ==> (r is Err || (r matches Ok(Some(_))))
                &&& match r {
                    Ok(Some(v)) => if has_key(rd, n) {
                        final(self).pending() == pd && final(self).read_resources() == rd
                    } else {
                        let e = value_of(pd, n);
                        &&& has_key(pd, n)
                        &&& e.jar_id < old(self).jar_data().len()
                        &&& e.entry_index < old(self).jar_data()[e.jar_id as int].len()
                        &&& v@ == old(self).jar_data()[e.jar_id as int][e.entry_index as int]
                        &&& final(self).pending() == without_key(pd, n)
                        &&& final(self).read_resources() == rd.push((n, v@))
                    },
                    _ => final(self).pending() == pd && final(self).read_resources() == rd,
                }
            }),
    {
        let normalized = normalize_resource_name(name);
        let ghost n = normalized@;
        let ghost rd = self.read_resources();
        let ghost pd = self.pending();
        match find_read(&self.resources, normalized.as_str()) {
            Some(i) => {
                proof {
                    lemma_value_at(rd, i as int);
                }
                return Ok(Some(bytes_copy(&self.resources[i].1)));
            },
            None => {},
        }
        proof {
            if has_key(rd, n) {
                let q = choose|q: int| 0 <= q < rd.len() && #[trigger] rd[q].0 == n;
                assert(self.resources@[q].0@ == n);
            }
        }
        let j = match find_read(&self.pending_resources, normalized.as_str()) {
            Some(j) => j,
            None => {
                proof {
                    if has_key(pd, n) {
                        let q = choose|q: int| 0 <= q < pd.len() && #[trigger] pd[q].0 == n;
                        assert(self.pending_resources@[q].0@ == n);
                    }
                }
                return Ok(None);
            },
        };
        proof {
            lemma_value_at(pd, j as int);
        }
        let entry = entry_ref_copy(&self.pending_resources[j].1);
        let data = self.read_jar_entry(&entry)?;
        self.pending_resources.remove(j);
        proof {
            lemma_without_key_at(pd, j as int);
            assert(self.pending() =~= pd.remove(j as int));
            lemma_without_key_props(pd, n);
        }
        let kept = bytes_copy(&data);
        self.resources.push((normalized, kept));
        proof {
            assert(self.read_resources() =~= rd.push((n, data@)));
            let w = self.read_resources();
            assert forall|a: int, b: int| 0 <= a < b < w.len() implies #[trigger] w[a].0 != #[trigger] w[b].0 by {
                if b == w.len() - 1 {
                    assert(w[a] == rd[a]);
                    if rd[a].0 == n {
                        assert(has_key(rd, n));
                    }
                } else {
                    assert(w[a] == rd[a]);
                    assert(w[b] == rd[b]);
                }
            }
        }
        Ok(Some(data))
    }
}

proof fn lemma_without_key_keeps<V>(list: Seq<(Seq<char>, V)>, k: Seq<char>, other: Seq<char>)
    requires
        has_key(list, other),
        other != k,
    ensures
        has_key(without_key(list, k), other),
    decreases list.len(),
{
    let d = list.drop_last();
    if list.last().0 == other {
        assert(without_key(list, k).last().0 == other);
        assert(without_key(list, k)[without_key(list, k).len() - 1].0 == other);
    } else {
        assert(has_key(d, other)) by {
            let q = choose|q: int| 0 <= q < list.len() && #[trigger] list[q].0 == other;
            assert(q != list.len() - 1);
            assert(d[q].0 == other);
        }
        lemma_without_key_keeps(d, k, other);
        let r = without_key(d, k);
        let q = choose|q: int| 0 <= q < r.len() && #[trigger] r[q].0 == other;
        if list.last().0 != k {
            assert(r.push(list.last())[q].0 == other);
        }
    }
}

/// Every resource entry of a loaded JAR is pending afterwards, the last
/// entry of a name with where it is; none of them is left among the read
/// resources, so the next read takes them from the JAR.
pub proof fn law_loaded_resources_are_pending(
    p: Seq<(Seq<char>, JarEntryV)>,
    r: Seq<(Seq<char>, Seq<u8>)>,
    es: Seq<(Seq<char>, JarEntryV)>,
)
    ensures
        forall|k: int| 0 <= k < es.len() ==> has_key(add_pending(p, es), #[trigger] es[k].0),
        es.len() > 0 ==> add_pending(p, es).last() == es.last(),
        forall|k: int| 0 <= k < es.len() ==> !has_key(drop_read(r, es), #[trigger] es[k].0),
    decreases es.len(),
{
    if es.len() > 0 {
        let d = es.drop_last();
        law_loaded_resources_are_pending(p, r, d);
        let prev = add_pending(p, d);
        let last = es.last();
        let now = add_pending(p, es);
        assert(now == without_key(prev, last.0).push(last));
        assert forall|k: int| 0 <= k < es.len() implies has_key(now, #[trigger] es[k].0) by {
            if es[k].0 == last.0 {
                assert(now[now.len() - 1].0 == last.0);
            } else {
                assert(d[k] == es[k]);
                lemma_without_key_keeps(prev, last.0, es[k].0);
                let w = without_key(prev, last.0);
                let q = choose|q: int| 0 <= q < w.len() && #[trigger] w[q].0 == es[k].0;
                assert(now[q].0 == es[k].0);
            }
        }
        let rd = drop_read(r, es);
        assert forall|k: int| 0 <= k < es.len() implies !has_key(rd, #[trigger] es[k].0) by {
            lemma_without_key_gone(drop_read(r, d), last.0);
            if es[k].0 != last.0 {
                assert(d[k] == es[k]);
                lemma_without_key_subset(drop_read(r, d), last.0, es[k].0);
            }
        }
    }
}

proof fn lemma_without_key_gone<V>(list: Seq<(Seq<char>, V)>, k: Seq<char>)
    ensures
        !has_key(without_key(list, k), k),
    decreases list.len(),
{
    if list.len() > 0 {
        lemma_without_key_gone(list.drop_last(), k);
        let r = without_key(list.drop_last(), k);
        if list.last().0 != k {
            if has_key(r.push(list.last()), k) {
                let q = choose|q: int| 0 <= q < r.push(list.last()).len() && #[trigger] r.push(list.last())[q].0 == k;
                assert(r[q].0 == k);
            }
        }
    }
}

proof fn lemma_without_key_subset<V>(list: Seq<(Seq<char>, V)>, k: Seq<char>, other: Seq<char>)
    requires
        !has_key(list, other),
    ensures
        !has_key(without_key(list, k), other),
    decreases list.len(),
{
    if list.len() > 0 {
        let d = list.drop_last();
        assert(!has_key(d, other)) by {
            if has_key(d, other) {
                let q = choose|q: int| 0 <= q < d.len() && #[trigger] d[q].0 == other;
                assert(list[q].0 == other);
            }
        }
        lemma_without_key_subset(d, k, other);
        let r = without_key(d, k);
        assert(list[list.len() - 1].0 != other);
        if list.last().0 != k {
            if has_key(r.push(list.last()), other) {
                let q = choose|q: int| 0 <= q < r.push(list.last()).len() && #[trigger] r.push(list.last())[q].0 == other;
                assert(r[q].0 == other);
            }
        }
    }
}

} // verus!
