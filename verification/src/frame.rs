//! Small helpers shared by the bytecode dispatch loop.

use vstd::prelude::*;
use crate::text::{str_eq, chars_of, find_chars, find_from, int_text, lemma_find_from_bound, push_char, push_int_text};

verus! {

/// Message of the `ArrayIndexOutOfBoundsException` raised for `idx`.
pub open spec fn array_oob_text(idx: int) -> Seq<char> {
    "java/lang/ArrayIndexOutOfBoundsException: Index "@ + int_text(idx) + " out of bounds"@
}

/// Convert a Java array index (`i32`) to a host index; a negative index is an
/// `ArrayIndexOutOfBoundsException`. Callers still check the upper bound.
pub fn array_index(idx_i: i32) -> (res: Result<usize, String>)
    ensures
        idx_i >= 0 ==> res == Ok::<usize, String>(idx_i as usize),
        idx_i < 0 ==> (res matches Err(msg) && msg@ == array_oob_text(idx_i as int)),
{
    if idx_i < 0 {
        Err(array_oob(idx_i))
    } else {
        Ok(idx_i as usize)
    }
}

/// The `ArrayIndexOutOfBoundsException` message for the given index.
pub fn array_oob(idx_i: i32) -> (msg: String)
    ensures
        msg@ == array_oob_text(idx_i as int),
{
    let mut s = String::new();
    s.append("java/lang/ArrayIndexOutOfBoundsException: Index ");
    push_int_text(&mut s, idx_i as i64);
    s.append(" out of bounds");
    s
}

/// The position of the last `c` in `s`.
pub open spec fn last_index_of(s: Seq<char>, c: char) -> Option<int>
    decreases s.len(),
{
    if s.len() == 0 {
        None
    } else if s.last() == c {
        Some(s.len() - 1)
    } else {
        last_index_of(s.drop_last(), c)
    }
}

/// The owner class in a frame name `<owner>.<method>(<descriptor>)...`:
/// what comes before the last `.` that precedes the first `(`.
pub open spec fn frame_owner_text(s: Seq<char>) -> Option<Seq<char>> {
    match find_from(s, seq!['('], 0) {
        None => None,
        Some(d) => match last_index_of(s.subrange(0, d as int), '.') {
            None => None,
            Some(m) => Some(s.subrange(0, m)),
        },
    }
}

/// The owner class in a frame name `<owner>.<method>(<descriptor>)...`, as
/// used to find the class whose field an instruction accesses.
pub fn parse_frame_owner_for_field_access(frame_owner: &str) -> (r: Option<String>)
    ensures
        match r {
            Some(o) => frame_owner_text(frame_owner@) == Some(o@),
            None => frame_owner_text(frame_owner@) is None,
        },
{
    let s = chars_of(frame_owner);
    let open = chars_of("(");
    proof {
        reveal_strlit("(");
        assert(open@ =~= seq!['(']);
        lemma_find_from_bound(s@, open@, 0);
    }
    let descriptor_start = match find_chars(&s, &open, 0) {
        Some(d) => d,
        None => {
            return None;
        },
    };
    let mut k = descriptor_start;
    let ghost head = s@.subrange(0, descriptor_start as int);
    while k > 0 && s[k - 1] != '.'
        invariant
            k <= descriptor_start <= s@.len(),
            head == s@.subrange(0, descriptor_start as int),
            last_index_of(head, '.') == last_index_of(s@.subrange(0, k as int), '.'),
        decreases k,
    {
        assert(s@.subrange(0, k as int).drop_last() =~= s@.subrange(0, k as int - 1));
        k = k - 1;
    }
    if k == 0 {
        return None;
    }
    let method_sep = k - 1;
    let mut owner = String::new();
    let mut i: usize = 0;
    while i < method_sep
        invariant
            method_sep < s@.len(),
            i <= method_sep,
            owner@ == s@.subrange(0, i as int),
        decreases method_sep - i,
    {
        push_char(&mut owner, s[i]);
        assert(s@.subrange(0, i as int + 1) =~= s@.subrange(0, i as int).push(s@[i as int]));
        i = i + 1;
    }
    Some(owner)
}

pub const ACC_FINAL: u16 = 0x0010;

/// The `IllegalAccessError` for a write to a static final field from
/// outside its class.
pub open spec fn final_field_write_text(owner: Seq<char>, field_name: Seq<char>, frame_owner: Seq<char>) -> Seq<char> {
    "java/lang/IllegalAccessError: Update to static final field "@ + owner + "."@ + field_name
        + " attempted from "@ + frame_owner
}

/// A static field with these flags, declared by `owner`, may be written from
/// the method whose frame owner is `frame_owner`: it is not final, or the
/// method belongs to `owner` itself.
pub open spec fn static_write_allowed(owner: Seq<char>, access_flags: u16, frame_owner: Seq<char>) -> bool {
    access_flags & ACC_FINAL == 0 || frame_owner_text(frame_owner) == Some(owner)
}

/// Check a `putstatic` to a field resolved to `resolved_owner`: a final
/// static field may only be written by its own class.
pub fn check_final_static_field_write_resolved(
    resolved_owner: &str,
    field_name: &str,
    access_flags: u16,
    current_frame_owner: &str,
) -> (r: Result<(), String>)
    ensures
        r is Ok <==> static_write_allowed(resolved_owner@, access_flags, current_frame_owner@),
        r matches Err(e) ==> e@ == final_field_write_text(resolved_owner@, field_name@, current_frame_owner@),
{
    if access_flags & ACC_FINAL == 0 {
        return Ok(());
    }
    if let Some(current_class) = parse_frame_owner_for_field_access(current_frame_owner) {
        if str_eq(&current_class, resolved_owner) {
            return Ok(());
        }
    }
    let mut e = String::new();
    e.append("java/lang/IllegalAccessError: Update to static final field ");
    e.append(resolved_owner);
    e.append(".");
    e.append(field_name);
    e.append(" attempted from ");
    e.append(current_frame_owner);
    Err(e)
}

} // verus!
