//! Process-style view of a running JVM: exit status, stdio modes and the
//! `System.exit(<code>)` marker that an uncaught exit carries.

use vstd::prelude::*;
use std::collections::VecDeque;
use crate::text::{chars_of, find_chars, find_from, lemma_find_from_bound, str_eq};

verus! {

/// How a process ended.
#[derive(Debug, Clone, PartialEq, Eq)]
pub struct ProcessExit {
    pub exit_code: i32,
    pub uncaught_exception: Option<String>,
}

/// What a round of pumping left the process doing.
#[derive(Debug, Clone, Copy, PartialEq, Eq, Structural)]
pub enum ProcessState {
    Running,
    WaitingForInput,
    Exited,
}

/// Process-style stdio handling of one stream.
#[derive(Debug, Clone, Copy, PartialEq, Eq, Structural)]
pub enum StdioMode {
    Pipe,
    Ignore,
    Inherit,
}

pub open spec fn unsupported_stdio_text(spec: Seq<char>) -> Seq<char> {
    "Unsupported stdio mode: "@ + spec
}

impl StdioMode {
    /// Parses `pipe`, `ignore` or `inherit`.
    pub fn from_spec(spec: &str) -> (r: Result<StdioMode, String>)
        ensures
            spec@ == "pipe"@ ==> r == Ok::<StdioMode, String>(StdioMode::Pipe),
            spec@ == "ignore"@ ==> r == Ok::<StdioMode, String>(StdioMode::Ignore),
            spec@ == "inherit"@ ==> r == Ok::<StdioMode, String>(StdioMode::Inherit),
            spec@ != "pipe"@ && spec@ != "ignore"@ && spec@ != "inherit"@ ==> (r matches Err(e)
                && e@ == unsupported_stdio_text(spec@)),
    {
        proof {
            reveal_strlit("pipe");
            reveal_strlit("ignore");
            reveal_strlit("inherit");
            assert("pipe"@.len() != "ignore"@.len());
            assert("pipe"@.len() != "inherit"@.len());
            assert("ignore"@.len() != "inherit"@.len());
        }
        if str_eq(spec, "pipe") {
            Ok(StdioMode::Pipe)
        } else if str_eq(spec, "ignore") {
            Ok(StdioMode::Ignore)
        } else if str_eq(spec, "inherit") {
            Ok(StdioMode::Inherit)
        } else {
            let mut e = String::new();
            e.append("Unsupported stdio mode: ");
            e.append(spec);
            Err(e)
        }
    }
}

/// A line the process prints on the host console (stderr when `is_err`).
pub struct HostLine {
    pub is_err: bool,
    pub text: String,
}

/// All the bytes of the chunks, in order.
pub open spec fn concat_chunks(cs: Seq<Vec<u8>>) -> Seq<u8>
    decreases cs.len(),
{
    if cs.len() == 0 {
        Seq::empty()
    } else {
        cs[0]@ + concat_chunks(cs.drop_first())
    }
}

/// The standard streams of a process: their modes, the bytes supplied to
/// stdin, the chunks written to piped stdout and stderr, and the text that
/// `System.out` / `System.err` printed without ending the line yet.
pub struct StdioPipes {
    pub stdin_mode: StdioMode,
    pub stdout_mode: StdioMode,
    pub stderr_mode: StdioMode,
    /// Buffered `System.out.print` text until the end of the line.
    pub stdout_buffer: String,
    /// Buffered `System.err.print` text until the end of the line.
    pub stderr_buffer: String,
    /// Bytes written to `System.out` when stdout is piped.
    pub stdout_chunks: VecDeque<Vec<u8>>,
    /// Bytes written to `System.err` when stderr is piped.
    pub stderr_chunks: VecDeque<Vec<u8>>,
    /// Bytes supplied to the stdin pipe and not read yet.
    pub stdin_bytes: VecDeque<u8>,
    /// Whether the stdin pipe has reached end of file.
    pub stdin_closed: bool,
}

impl StdioPipes {
    /// Piped stdin, inherited stdout and stderr, nothing buffered.
    pub fn new() -> (p: StdioPipes)
        ensures
            p.stdin_mode == StdioMode::Pipe,
            p.stdout_mode == StdioMode::Inherit,
            p.stderr_mode == StdioMode::Inherit,
            p.stdout_buffer@ == Seq::<char>::empty(),
            p.stderr_buffer@ == Seq::<char>::empty(),
            p.stdout_chunks@ == Seq::<Vec<u8>>::empty(),
            p.stderr_chunks@ == Seq::<Vec<u8>>::empty(),
            p.stdin_bytes@ == Seq::<u8>::empty(),
            !p.stdin_closed,
    {
        StdioPipes {
            stdin_mode: StdioMode::Pipe,
            stdout_mode: StdioMode::Inherit,
            stderr_mode: StdioMode::Inherit,
            stdout_buffer: String::new(),
            stderr_buffer: String::new(),
            stdout_chunks: VecDeque::new(),
            stderr_chunks: VecDeque::new(),
            stdin_bytes: VecDeque::new(),
            stdin_closed: false,
        }
    }

    /// Sets the three modes and drops everything buffered; an ignored stdin
    /// is at end of file from the start.
    pub fn set_stdio_modes(&mut self, stdin: StdioMode, stdout: StdioMode, stderr: StdioMode)
        ensures
            final(self).stdin_mode == stdin,
            final(self).stdout_mode == stdout,
            final(self).stderr_mode == stderr,
            final(self).stdin_closed == (stdin == StdioMode::Ignore),
            final(self).stdout_buffer@ == Seq::<char>::empty(),
            final(self).stderr_buffer@ == Seq::<char>::empty(),
            final(self).stdout_chunks@ == Seq::<Vec<u8>>::empty(),
            final(self).stderr_chunks@ == Seq::<Vec<u8>>::empty(),
            final(self).stdin_bytes@ == Seq::<u8>::empty(),
    {
        self.stdin_mode = stdin;
        self.stdout_mode = stdout;
        self.stderr_mode = stderr;
        self.stdin_closed = stdin == StdioMode::Ignore;
        self.stdin_bytes = VecDeque::new();
        self.stdout_chunks = VecDeque::new();
        self.stderr_chunks = VecDeque::new();
        self.stdout_buffer = String::new();
        self.stderr_buffer = String::new();
    }

    /// Appends bytes to the stdin pipe, unless stdin is ignored or closed.
    /// Returns whether they were taken.
    pub fn write_stdin(&mut self, bytes: &[u8]) -> (taken: bool)
        ensures
            taken == (old(self).stdin_mode != StdioMode::Ignore && !old(self).stdin_closed),
            taken ==> final(self).stdin_bytes@ == old(self).stdin_bytes@ + bytes@,
            !taken ==> final(self).stdin_bytes@ == old(self).stdin_bytes@,
            final(self).stdin_mode == old(self).stdin_mode,
            final(self).stdout_mode == old(self).stdout_mode,
            final(self).stderr_mode == old(self).stderr_mode,
            final(self).stdin_closed == old(self).stdin_closed,
            final(self).stdout_buffer == old(self).stdout_buffer,
            final(self).stderr_buffer == old(self).stderr_buffer,
            final(self).stdout_chunks == old(self).stdout_chunks,
            final(self).stderr_chunks == old(self).stderr_chunks,
    {
        if self.stdin_mode == StdioMode::Ignore || self.stdin_closed {
            return false;
        }
        let mut i: usize = 0;
        while i < bytes.len()
            invariant
                i <= bytes@.len(),
                self.stdin_bytes@ == old(self).stdin_bytes@ + bytes@.take(i as int),
                self.stdin_mode == old(self).stdin_mode,
                self.stdout_mode == old(self).stdout_mode,
                self.stderr_mode == old(self).stderr_mode,
                self.stdin_closed == old(self).stdin_closed,
                self.stdout_buffer == old(self).stdout_buffer,
                self.stderr_buffer == old(self).stderr_buffer,
                self.stdout_chunks == old(self).stdout_chunks,
                self.stderr_chunks == old(self).stderr_chunks,
            decreases bytes@.len() - i,
        {
            self.stdin_bytes.push_back(bytes[i]);
            assert(bytes@.take(i as int + 1) =~= bytes@.take(i as int).push(bytes@[i as int]));
            i = i + 1;
        }
        assert(bytes@.take(i as int) =~= bytes@);
        true
    }

    /// Takes the next stdin byte: the byte itself, `-1` at end of file, or
    /// `-2` when no byte has arrived yet.
    pub fn stdin_read_byte(&mut self) -> (r: i32)
        ensures
            old(self).stdin_bytes@.len() > 0 ==> r == old(self).stdin_bytes@[0] as i32
                && final(self).stdin_bytes@ == old(self).stdin_bytes@.drop_first(),
            old(self).stdin_bytes@.len() == 0 ==> r == (if old(self).stdin_closed {
                -1i32
            } else {
                -2i32
            }) && final(self).stdin_bytes@ == old(self).stdin_bytes@,
            final(self).stdin_closed == old(self).stdin_closed,
            final(self).stdin_mode == old(self).stdin_mode,
    {
        match self.stdin_bytes.pop_front() {
            Some(byte) => byte as i32,
            None => if self.stdin_closed {
                -1
            } else {
                -2
            },
        }
    }

    /// Number of stdin bytes that can be read without waiting, capped at
    /// `i32::MAX`.
    pub fn stdin_available(&self) -> (n: i32)
        ensures
            n == if self.stdin_bytes@.len() < i32::MAX {
                self.stdin_bytes@.len() as i32
            } else {
                i32::MAX
            },
    {
        let len = self.stdin_bytes.len();
        if len < 2147483647 {
            len as i32
        } else {
            i32::MAX
        }
    }

    fn take_chunks(chunks: &mut VecDeque<Vec<u8>>) -> (out: Vec<u8>)
        ensures
            out@ == concat_chunks(old(chunks)@),
            final(chunks)@ == Seq::<Vec<u8>>::empty(),
    {
        let mut out: Vec<u8> = Vec::new();
        let ghost all = chunks@;
        while chunks.len() > 0
            invariant
                out@ + concat_chunks(chunks@) == concat_chunks(all),
            decreases chunks@.len(),
        {
            let ghost before = chunks@;
            match chunks.pop_front() {
                Some(chunk) => {
                    let mut chunk = chunk;
                    assert(before.drop_first() == chunks@);
                    let ghost c = chunk@;
                    out.append(&mut chunk);
                    assert(out@ + concat_chunks(chunks@) =~= (out@.subrange(0, out@.len() - c.len())
                        + c) + concat_chunks(chunks@));
                },
                None => {},
            }
        }
        assert(concat_chunks(chunks@) =~= Seq::<u8>::empty());
        assert(out@ =~= concat_chunks(all));
        out
    }

    /// Everything piped to stdout so far, which is then forgotten.
    pub fn take_stdout(&mut self) -> (out: Vec<u8>)
        ensures
            out@ == concat_chunks(old(self).stdout_chunks@),
            final(self).stdout_chunks@ == Seq::<Vec<u8>>::empty(),
            final(self).stderr_chunks == old(self).stderr_chunks,
            final(self).stdin_bytes == old(self).stdin_bytes,
            final(self).stdin_closed == old(self).stdin_closed,
    {
        Self::take_chunks(&mut self.stdout_chunks)
    }

    /// Everything piped to stderr so far, which is then forgotten.
    pub fn take_stderr(&mut self) -> (out: Vec<u8>)
        ensures
            out@ == concat_chunks(old(self).stderr_chunks@),
            final(self).stderr_chunks@ == Seq::<Vec<u8>>::empty(),
            final(self).stdout_chunks == old(self).stdout_chunks,
            final(self).stdin_bytes == old(self).stdin_bytes,
            final(self).stdin_closed == old(self).stdin_closed,
    {
        Self::take_chunks(&mut self.stderr_chunks)
    }
}

pub open spec fn is_digit(c: char) -> bool {
    '0' <= c <= '9'
}

pub open spec fn all_digits(d: Seq<char>) -> bool {
    forall|k: int| 0 <= k < d.len() ==> is_digit(#[trigger] d[k])
}

/// The value of a string of decimal digits.
pub open spec fn digits_value(d: Seq<char>) -> int
    decreases d.len(),
{
    if d.len() == 0 {
        0
    } else {
        digits_value(d.drop_last()) * 10 + (d.last() as int - 48)
    }
}

/// What `str::parse::<i32>` gives: an optional sign, then one or more
/// decimal digits whose value fits in an `i32`.
pub open spec fn parse_i32_text(t: Seq<char>) -> Option<i32> {
    let neg = t.len() > 0 && t[0] == '-';
    let signed = t.len() > 0 && (t[0] == '-' || t[0] == '+');
    let d = if signed {
        t.drop_first()
    } else {
        t
    };
    let v = if neg {
        -digits_value(d)
    } else {
        digits_value(d)
    };
    if d.len() > 0 && all_digits(d) && i32::MIN <= v <= i32::MAX {
        Some(v as i32)
    } else {
        None
    }
}

/// The exit code carried by an error of the form `... System.exit(<code>)...`:
/// the text between the first `System.exit(` and the next `)`, parsed as an
/// `i32`.
pub open spec fn system_exit_code(m: Seq<char>) -> Option<i32> {
    match find_from(m, "System.exit("@, 0) {
        None => None,
        Some(i) => {
            let start = i + "System.exit("@.len();
            match find_from(m, seq![')'], start) {
                None => None,
                Some(j) => parse_i32_text(m.subrange(start as int, j as int)),
            }
        },
    }
}

proof fn lemma_digits_prefix(d: Seq<char>, k: int)
    requires
        all_digits(d),
        0 <= k <= d.len(),
    ensures
        0 <= digits_value(d.take(k)) <= digits_value(d),
    decreases d.len(),
{
    if k < d.len() {
        assert(d.drop_last().take(k) =~= d.take(k));
        assert(is_digit(d[d.len() - 1]));
        lemma_digits_prefix(d.drop_last(), k);
    } else {
        assert(d.take(k) =~= d);
        if d.len() > 0 {
            lemma_digits_prefix(d.drop_last(), d.len() - 1);
            assert(d.drop_last().take(d.len() - 1) =~= d.drop_last());
            assert(is_digit(d[d.len() - 1]));
        }
    }
}

/// `str::parse::<i32>` on the characters `s[from..to]`.
fn parse_i32_chars(s: &Vec<char>, from: usize, to: usize) -> (r: Option<i32>)
    requires
        from <= to <= s@.len(),
    ensures
        r == parse_i32_text(s@.subrange(from as int, to as int)),
{
    let ghost t = s@.subrange(from as int, to as int);
    let mut i = from;
    let mut neg = false;
    if from < to && (s[from] == '-' || s[from] == '+') {
        neg = s[from] == '-';
        i = from + 1;
    }
    let ghost d = s@.subrange(i as int, to as int);
    assert(d =~= if t.len() > 0 && (t[0] == '-' || t[0] == '+') { t.drop_first() } else { t });
    if i == to {
        return None;
    }
    let mut acc: i64 = 0;
    let mut k = i;
    while k < to
        invariant
            i <= k <= to <= s@.len(),
            t == s@.subrange(from as int, to as int),
            d == s@.subrange(i as int, to as int),
            d == if t.len() > 0 && (t[0] == '-' || t[0] == '+') {
                t.drop_first()
            } else {
                t
            },
            neg == (t.len() > 0 && t[0] == '-'),
            all_digits(d.take(k - i)),
            acc == digits_value(d.take(k - i)),
            0 <= acc <= 2147483648,
        decreases to - k,
    {
        let c = s[k];
        if !('0' <= c && c <= '9') {
            assert(!all_digits(d)) by {
                assert(d[k - i] == c);
            }
            return None;
        }
        let v: i64 = (c as u32 - 48) as i64;
        assert(d.take(k - i + 1).drop_last() =~= d.take(k - i));
        assert(all_digits(d.take(k - i + 1))) by {
            assert forall|q: int| 0 <= q < k - i + 1 implies is_digit(#[trigger] d.take(k - i + 1)[q]) by {
                if q < k - i {
                    assert(d.take(k - i + 1)[q] == d.take(k - i)[q]);
                }
            }
        }
        acc = acc * 10 + v;
        k = k + 1;
        if acc > 2147483648 {
            proof {
                if all_digits(d) {
                    lemma_digits_prefix(d, k - i);
                }
            }
            return None;
        }
    }
    assert(d.take(k - i) =~= d);
    if neg {
        Some((0 - acc) as i32)
    } else if acc <= 2147483647 {
        Some(acc as i32)
    } else {
        None
    }
}

/// The exit code of an error raised by `System.exit(<code>)`: the text
/// between the first `System.exit(` and the next `)`, when it parses as an
/// `i32`.
pub fn parse_system_exit(message: &str) -> (r: Option<i32>)
    ensures
        r == system_exit_code(message@),
{
    proof {
        reveal_strlit("System.exit(");
        reveal_strlit(")");
    }
    let s = chars_of(message);
    let marker = chars_of("System.exit(");
    let close = chars_of(")");
    assert(close@ =~= seq![')']);
    proof {
        lemma_find_from_bound(s@, marker@, 0);
    }
    let start = match find_chars(&s, &marker, 0) {
        Some(i) => {
            assert(find_from(s@, marker@, 0) == Some(i as nat));
            assert(i + marker@.len() <= s@.len());
            let n = s.len();
            assert(i + marker@.len() <= n);
            i + marker.len()
        },
        None => {
            return None;
        },
    };
    proof {
        lemma_find_from_bound(s@, close@, start as nat);
    }
    match find_chars(&s, &close, start) {
        Some(j) => parse_i32_chars(&s, start, j),
        None => None,
    }
}

} // verus!
