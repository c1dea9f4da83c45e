use vstd::prelude::*;
use std::ops::Range;

use crate::cache::valid_cache_size;
use crate::envvars::chars_of;
use crate::types::{Cache, Caching, Frame, Framing, Log};

verus! {

/// Whether `c` is an ASCII decimal digit.
pub open spec fn is_digit(c: char) -> bool {
    '0' <= c <= '9'
}

/// Value of a sequence of decimal digits.
pub open spec fn digits_value(d: Seq<char>) -> nat
    decreases d.len(),
{
    if d.len() == 0 {
        0
    } else {
        digits_value(d.drop_last()) * 10 + (d.last() as nat - '0' as nat) as nat
    }
}

/// `s` without a leading `+`.
pub open spec fn strip_plus(s: Seq<char>) -> Seq<char> {
    if s.len() > 0 && s[0] == '+' {
        s.subrange(1, s.len() as int)
    } else {
        s
    }
}

/// Whether every character of `d` is a decimal digit.
pub open spec fn all_digits(d: Seq<char>) -> bool {
    forall|i: int| 0 <= i < d.len() ==> is_digit(#[trigger] d[i])
}

/// The number that `s` writes in decimal, with an optional leading `+`, as
/// Rust reads unsigned integers; `None` where `s` is no such number.
pub open spec fn parse_decimal(s: Seq<char>) -> Option<nat> {
    if strip_plus(s).len() > 0 && all_digits(strip_plus(s)) {
        Some(digits_value(strip_plus(s)))
    } else {
        None
    }
}

/// Read the unsigned number that `s[from..to]` writes, if it is at most `limit`.
fn parse_number(s: &Vec<char>, from: usize, to: usize, limit: u64) -> (r: Option<u64>)
    requires
        from <= to <= s@.len(),
    ensures
        r == (match parse_decimal(s@.subrange(from as int, to as int)) {
            Some(v) => if v <= limit {
                Some(v as u64)
            } else {
                None
            },
            None => None,
        }),
{
    let ghost t = s@.subrange(from as int, to as int);
    let mut start = from;
    if from < to && s[from] == '+' {
        start = from + 1;
    }
    let ghost d = s@.subrange(start as int, to as int);
    assert(d =~= strip_plus(t));
    if start == to {
        return None;
    }
    let mut acc: u64 = 0;
    let mut too_big = false;
    let mut i = start;
    while i < to
        invariant
            start <= i <= to <= s@.len(),
            d == s@.subrange(start as int, to as int),
            t == s@.subrange(from as int, to as int),
            d == strip_plus(t),
            forall|k: int| start <= k < i ==> is_digit(#[trigger] s@[k]),
            too_big ==> digits_value(s@.subrange(start as int, i as int)) > limit,
            !too_big ==> acc == digits_value(s@.subrange(start as int, i as int)) && acc <= limit,
        decreases to - i,
    {
        let c = s[i];
        if !('0' <= c && c <= '9') {
            assert(!is_digit(d[i - start]));
            assert(!all_digits(d));
            assert(parse_decimal(t) is None);
            return None;
        }
        let digit = (c as u32 - '0' as u32) as u64;
        let ghost prev = s@.subrange(start as int, i as int);
        assert(s@.subrange(start as int, i + 1).drop_last() =~= prev);
        if !too_big {
            if digit > limit || acc > (limit - digit) / 10 {
                too_big = true;
                assert(digits_value(prev) * 10 + digit > limit) by (nonlinear_arith)
                    requires
                        acc == digits_value(prev),
                        digit <= limit ==> acc > (limit - digit) / 10,
                ;
            } else {
                assert(acc * 10 + digit <= limit) by (nonlinear_arith)
                    requires
                        acc <= (limit - digit) / 10,
                        digit <= limit,
                ;
                acc = acc * 10 + digit;
            }
        } else {
            assert(digits_value(prev) * 10 + digit >= digits_value(prev)) by (nonlinear_arith);
        }
        i += 1;
    }
    assert(s@.subrange(start as int, i as int) =~= d);
    if too_big {
        None
    } else {
        Some(acc)
    }
}

/// Position of the first `:` in `s`, if any.
fn find_colon(s: &Vec<char>) -> (r: Option<usize>)
    ensures
        match r {
            Some(i) => i < s@.len() && s@[i as int] == ':' && forall|k: int|
                0 <= k < i ==> s@[k] != ':',
            None => forall|k: int| 0 <= k < s@.len() ==> s@[k] != ':',
        },
{
    let mut i: usize = 0;
    while i < s.len()
        invariant
            i <= s@.len(),
            forall|k: int| 0 <= k < i ==> s@[k] != ':',
        decreases s@.len() - i,
    {
        if s[i] == ':' {
            return Some(i);
        }
        i += 1;
    }
    None
}

/// The two sides of `s` around its first `:`, if it has one.
pub open spec fn split_colon(s: Seq<char>) -> Option<(Seq<char>, Seq<char>)> {
    if exists|i: int| 0 <= i < s.len() && s[i] == ':' {
        let i = choose|i: int|
            0 <= i < s.len() && s[i] == ':' && forall|k: int| 0 <= k < i ==> s[k] != ':';
        Some((s.subrange(0, i), s.subrange(i + 1, s.len() as int)))
    } else {
        None
    }
}

proof fn lemma_split_colon(s: Seq<char>, i: int)
    requires
        0 <= i < s.len(),
        s[i] == ':',
        forall|k: int| 0 <= k < i ==> s[k] != ':',
    ensures
        split_colon(s) == Some((s.subrange(0, i), s.subrange(i + 1, s.len() as int))),
{
    let j = choose|j: int|
        0 <= j < s.len() && s[j] == ':' && forall|k: int| 0 <= k < j ==> s[k] != ':';
    if j < i {
        assert(s[j] != ':');
    }
    if i < j {
        assert(s[i] != ':');
    }
}

/// The port range that `START:END` writes: both sides must be `u16` numbers.
pub open spec fn spec_parse_ports(arg: Seq<char>) -> Option<(u16, u16)> {
    match split_colon(arg) {
        Some((a, b)) => match (parse_decimal(a), parse_decimal(b)) {
            (Some(x), Some(y)) => if x <= u16::MAX && y <= u16::MAX {
                Some((x as u16, y as u16))
            } else {
                None
            },
            _ => None,
        },
        None => None,
    }
}

/// Parse a `START:END` port range.
pub fn parse_ports(arg: &str) -> (r: Result<Range<u16>, &'static str>)
    ensures
        match spec_parse_ports(arg@) {
            Some((start, end)) => r matches Ok(range) && range.start == start && range.end == end,
            None => r == Err::<Range<u16>, &'static str>("Could not parse port range"),
        },
{
    let s = chars_of(arg);
    match find_colon(&s) {
        Some(i) => {
            proof {
                lemma_split_colon(s@, i as int);
            }
            let start = parse_number(&s, 0, i, 65535);
            let end = parse_number(&s, i + 1, s.len(), 65535);
            match (start, end) {
                (Some(a), Some(b)) => Ok(Range { start: a as u16, end: b as u16 }),
                _ => Err("Could not parse port range"),
            }
        },
        None => Err("Could not parse port range"),
    }
}

/// The cache option that `[TYPE:]SIZE` writes: TYPE is `all` (the default)
/// or `tagged`, SIZE is 1, 8 or 64.
pub open spec fn spec_parse_cache(arg: Seq<char>) -> Option<Cache> {
    let (kind, size) = match split_colon(arg) {
        Some((k, n)) => (k, n),
        None => ("all"@, arg),
    };
    match parse_decimal(size) {
        Some(n) => if valid_cache_size(n as int) && kind == "all"@ {
            Some(Cache::All(n as usize))
        } else if valid_cache_size(n as int) && kind == "tagged"@ {
            Some(Cache::Tagged(n as usize))
        } else {
            None
        },
        None => None,
    }
}

/// Whether `s[from..to]` is `word`.
fn is_word(s: &Vec<char>, from: usize, to: usize, word: &str) -> (r: bool)
    requires
        from <= to <= s@.len(),
    ensures
        r == (s@.subrange(from as int, to as int) == word@),
{
    let w = chars_of(word);
    if to - from != w.len() {
        return false;
    }
    let mut i: usize = 0;
    while i < w.len()
        invariant
            to - from == w@.len(),
            from <= to <= s@.len(),
            w@ == word@,
            i <= w@.len(),
            forall|k: int| 0 <= k < i ==> s@[from + k] == w@[k],
        decreases w@.len() - i,
    {
        if s[from + i] != w[i] {
            assert(s@.subrange(from as int, to as int)[i as int] != w@[i as int]);
            return false;
        }
        i += 1;
    }
    assert(s@.subrange(from as int, to as int) =~= w@);
    true
}

/// Parse a `[TYPE:]SIZE` cache option.
pub fn parse_cache(arg: &str) -> (r: Result<Cache, &'static str>)
    ensures
        match spec_parse_cache(arg@) {
            Some(c) => r == Ok::<Cache, &'static str>(c),
            None => r == Err::<Cache, &'static str>(
                "Expected <TYPE>:<SIZE> or <SIZE> where SIZE is 1, 8 or 64",
            ),
        },
{
    let s = chars_of(arg);
    let (kind_all, kind_tagged, from) = match find_colon(&s) {
        Some(i) => {
            proof {
                lemma_split_colon(s@, i as int);
            }
            (is_word(&s, 0, i, "all"), is_word(&s, 0, i, "tagged"), i + 1)
        },
        None => {
            assert(s@.subrange(0, s@.len() as int) =~= s@);
            (true, false, 0)
        },
    };
    proof {
        reveal_strlit("all");
        reveal_strlit("tagged");
    }
    let size = parse_number(&s, from, s.len(), 64);
    match size {
        Some(n) if n == 1 || n == 8 || n == 64 => {
            if kind_all {
                Ok(Cache::All(n as usize))
            } else if kind_tagged {
                Ok(Cache::Tagged(n as usize))
            } else {
                Err("Expected <TYPE>:<SIZE> or <SIZE> where SIZE is 1, 8 or 64")
            }
        },
        _ => Err("Expected <TYPE>:<SIZE> or <SIZE> where SIZE is 1, 8 or 64"),
    }
}

/// Server configuration, as the command line sets it.
#[derive(Debug)]
pub struct Config {
    /// Interface to bind to
    pub addr: String,
    /// Bytes mode: no newline framing, binary WebSocket frames
    pub binary: bool,
    /// Cache server message history for each room and replay it to new clients
    pub cache: Option<Cache>,
    /// Keep a room's cache after its child exits
    pub cache_persist: bool,
    /// Seconds to wait before attaching to a child
    pub delay: Option<u64>,
    /// Message sent to the child when a client connects
    pub joinmsg: Option<String>,
    /// JSON framing with default join and leave messages
    pub json: bool,
    /// Message sent to the child when a client disconnects
    pub leavemsg: Option<String>,
    /// Log format
    pub log: Log,
    /// Expose OpenMetrics at /metrics
    pub metrics: bool,
    /// Stop after the first room ends
    pub oneshot: bool,
    /// Host variables passed to children
    pub passenv: Vec<String>,
    /// Framing of both directions
    pub frame: Option<Frame>,
    /// Framing of client messages
    pub client_frame: Option<Frame>,
    /// Framing of child messages
    pub server_frame: Option<Frame>,
    /// Directory of static files
    pub staticdir: Option<String>,
    /// Expose the room API under /api/
    pub api: bool,
    /// Talk to children over TCP instead of stdio
    pub tcp: bool,
    /// Ports for TCP children
    pub tcpports: Range<u16>,
    /// Verbosity level
    pub verbosity: u8,
    /// Command to wrap
    pub cmd: String,
    /// Arguments to the command
    pub args: Vec<String>,
}

impl Config {
    /// Framing of the rooms: a direction-specific option wins over `frame`.
    pub fn framing(&self) -> (r: Framing)
        ensures
            (self.client_frame is Some || self.server_frame is Some) ==> r
                == Framing::Asymmetric(self.client_frame, self.server_frame),
            (self.client_frame is None && self.server_frame is None) ==> r == match self.frame {
                Some(f) => Framing::Symmetric(f),
                None => Framing::Unframed,
            },
    {
        Framing::from_options(self.frame, self.client_frame, self.server_frame)
    }

    /// Caching policy of the rooms.
    pub fn caching(&self) -> (r: Caching)
        ensures
            r == match self.cache {
                Some(Cache::All(_)) => Caching::All,
                Some(Cache::Tagged(_)) => Caching::Tagged,
                None => Caching::Disabled,
            },
    {
        Caching::from_cache(self.cache)
    }
}

} // verus!
