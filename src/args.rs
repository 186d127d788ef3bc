use vstd::prelude::*;

use crate::error::{Error, ErrorKind};
use crate::utils::{parse_u64, parse_u64_spec, u64_error};

verus! {

/// The time part of a retention rule.
#[derive(Clone, Copy, Debug, PartialEq, Eq, Structural)]
pub enum TimeCondition {
    /// Eligible once the file is older than this many hours.
    Duration(u32),
    /// Eligible when the file was created before this instant (seconds since the Unix epoch).
    Date(i64),
}

/// What a retention rule reads of a file: its size and its creation time.
#[derive(Clone, Copy, Debug, PartialEq, Eq, Structural)]
pub struct FileStat {
    pub size: u64,
    /// Seconds since the Unix epoch.
    pub created_at: i64,
}

/// A retention rule: a file is eligible for purge when any condition set matches.
#[derive(Clone, Copy, Debug, PartialEq, Eq, Structural)]
pub struct RemoveCond {
    pub time_cond: Option<TimeCondition>,
    pub size_limit: Option<u32>,
}

/// Whether rule `c` makes a file with metadata `st` eligible at time `now`.
pub open spec fn cond_matches(c: RemoveCond, st: FileStat, now: int) -> bool {
    (match c.size_limit {
        Some(limit) => st.size > limit,
        None => false,
    }) || (match c.time_cond {
        Some(TimeCondition::Duration(h)) => now - st.created_at > h * 3600,
        Some(TimeCondition::Date(d)) => st.created_at < d,
        None => false,
    })
}

impl RemoveCond {
    /// Whether this rule makes a file with metadata `file` eligible at time `now`.
    pub fn check(&self, file: &FileStat, now: i64) -> (r: bool)
        ensures
            r == cond_matches(*self, *file, now as int),
    {
        if let Some(size_limit) = self.size_limit {
            if file.size > size_limit as u64 {
                return true;
            }
        }
        match self.time_cond {
            Some(TimeCondition::Duration(hours)) => {
                let age: i128 = now as i128 - file.created_at as i128;
                age > hours as i128 * 3600
            },
            Some(TimeCondition::Date(date)) => file.created_at < date,
            None => false,
        }
    }

    pub fn set_time_condition(&mut self, time_cond: TimeCondition)
        ensures
            *final(self) == (RemoveCond { time_cond: Some(time_cond), ..*old(self) }),
    {
        self.time_cond = Some(time_cond);
    }

    pub fn set_size_limit(&mut self, size_limit: u32)
        ensures
            *final(self) == (RemoveCond { size_limit: Some(size_limit), ..*old(self) }),
    {
        self.size_limit = Some(size_limit);
    }
}

/// Eligibility never reverts: a file eligible under a rule at `t1` stays
/// eligible at every later time, its metadata unchanged.
pub proof fn lemma_cond_monotone(c: RemoveCond, st: FileStat, t1: int, t2: int)
    requires
        cond_matches(c, st, t1),
        t1 <= t2,
    ensures
        cond_matches(c, st, t2),
{
}

/// Builds a `RemoveCond` step by step.
#[derive(Clone, Copy, Debug)]
pub struct RemoveCondBuilder {
    time_cond: Option<TimeCondition>,
    size_limit: Option<u32>,
}

impl RemoveCondBuilder {
    /// The rule this builder would build now.
    pub closed spec fn rule(&self) -> RemoveCond {
        RemoveCond { time_cond: self.time_cond, size_limit: self.size_limit }
    }

    pub fn new() -> (r: Self)
        ensures
            r.rule() == (RemoveCond { time_cond: None, size_limit: None }),
    {
        RemoveCondBuilder { time_cond: None, size_limit: None }
    }

    pub fn set_time_condition(self, time_cond: TimeCondition) -> (r: Self)
        ensures
            r.rule() == (RemoveCond { time_cond: Some(time_cond), ..self.rule() }),
    {
        RemoveCondBuilder { time_cond: Some(time_cond), size_limit: self.size_limit }
    }

    pub fn set_size_limit(self, size_limit: u32) -> (r: Self)
        ensures
            r.rule() == (RemoveCond { size_limit: Some(size_limit), ..self.rule() }),
    {
        RemoveCondBuilder { time_cond: self.time_cond, size_limit: Some(size_limit) }
    }

    pub fn build(&self) -> (r: RemoveCond)
        ensures
            r == self.rule(),
    {
        RemoveCond { time_cond: self.time_cond, size_limit: self.size_limit }
    }
}

impl Default for RemoveCondBuilder {
    fn default() -> (r: Self)
        ensures
            r.rule() == (RemoveCond { time_cond: None, size_limit: None }),
    {
        Self::new()
    }
}

/// Whether `c` has the Unicode `White_Space` property.
pub open spec fn is_white(c: char) -> bool {
    ('\u{9}' <= c && c <= '\u{d}') || c == ' ' || c == '\u{85}' || c == '\u{a0}' || c
        == '\u{1680}' || ('\u{2000}' <= c && c <= '\u{200a}') || c == '\u{2028}' || c
        == '\u{2029}' || c == '\u{202f}' || c == '\u{205f}' || c == '\u{3000}'
}

/// `s` without its leading white space.
pub open spec fn trim_start(s: Seq<char>) -> Seq<char>
    decreases s.len(),
{
    if s.len() > 0 && is_white(s[0]) {
        trim_start(s.drop_first())
    } else {
        s
    }
}

/// `s` without its trailing white space.
pub open spec fn trim_end(s: Seq<char>) -> Seq<char>
    decreases s.len(),
{
    if s.len() > 0 && is_white(s.last()) {
        trim_end(s.drop_last())
    } else {
        s
    }
}

/// `s` without its leading and trailing white space.
pub open spec fn trimmed(s: Seq<char>) -> Seq<char> {
    trim_end(trim_start(s))
}

/// Relies on `str::trim`: the slice without its leading and trailing
/// characters of the Unicode `White_Space` property.
#[verifier::external_body]
fn trim_str(s: &str) -> (r: &str)
    ensures
        r@ == trimmed(s@),
{
    s.trim()
}

/// Options of the `srm` command line.
#[derive(Clone, Copy, Debug, PartialEq, Eq, Structural)]
pub struct Flags {
    pub recursive: bool,
    pub store: bool,
    /// Hours a stored file is kept.
    pub life_duration: u32,
    /// Bytes above which a stored file becomes eligible.
    pub size_limit: u32,
}

/// The flags in force when none is given.
pub open spec fn default_flags() -> Flags {
    Flags { recursive: false, store: true, life_duration: 24, size_limit: 1073741824 }
}

impl Default for Flags {
    fn default() -> (r: Flags)
        ensures
            r == default_flags(),
    {
        Flags { recursive: false, store: true, life_duration: 24, size_limit: 1073741824 }
    }
}

/// The outcome of a command line: the file named last, and the flags.
#[derive(Debug, Clone)]
pub struct ParsedArgs {
    pub files: Vec<String>,
    pub flags: Flags,
}

impl Default for ParsedArgs {
    fn default() -> (r: ParsedArgs)
        ensures
            r.files@.len() == 0,
            r.flags == default_flags(),
    {
        ParsedArgs { files: Vec::new(), flags: Flags::default() }
    }
}

/// Which error a command line gives.
#[derive(Clone, Copy, Debug, PartialEq, Eq, Structural)]
pub enum ArgFault {
    /// A value could not be parsed (`ErrorKind::ParseError`).
    Parse,
    /// An argument was not understood (`ErrorKind::InvalidArg`).
    Invalid,
}

/// Whether `c` is `lower` or its ASCII upper-case form `upper`.
pub open spec fn is_letter(c: char, lower: char, upper: char) -> bool {
    c == lower || c == upper
}

/// Hours denoted by a life duration such as `"12h"`, `"3d"` or `"2w"` (units
/// in either case); `None` when malformed or beyond the `u32` range.
pub open spec fn life_hours(s: Seq<char>) -> Option<int> {
    if s.len() < 1 {
        None
    } else {
        match parse_u64_spec(s.drop_last()) {
            Some(v) => {
                let c = s.last();
                let f: int = if is_letter(c, 'h', 'H') {
                    1
                } else if is_letter(c, 'd', 'D') {
                    24
                } else if is_letter(c, 'w', 'W') {
                    168
                } else {
                    0
                };
                if v <= u32::MAX && f > 0 && v * f <= u32::MAX {
                    Some(v * f)
                } else {
                    None
                }
            },
            None => None,
        }
    }
}

/// The message with which reading the life duration `s` fails.
pub open spec fn life_error(s: Seq<char>) -> Seq<char> {
    if s.len() < 1 {
        "Empty duration"@
    } else if parse_u64_spec(s.drop_last()) is None || parse_u64_spec(s.drop_last())->Some_0
        > u32::MAX {
        "Failed to parse an integer: "@ + s.drop_last()
    } else if !(is_letter(s.last(), 'h', 'H') || is_letter(s.last(), 'd', 'D') || is_letter(
        s.last(),
        'w',
        'W',
    )) {
        "Failed to parse duration unit"@
    } else {
        "Duration is too large"@
    }
}

/// Bytes denoted by a size such as `"10k"`, `"5M"` or `"1g"` (white space
/// around the number is ignored); the error says which kind of failure.
pub open spec fn size_bytes(s: Seq<char>) -> Result<int, (ArgFault, Seq<char>)> {
    if s.len() == 0 {
        Err((ArgFault::Invalid, "String is empty"@))
    } else {
        match parse_u64_spec(trimmed(s.drop_last())) {
            Some(v) => {
                let c = s.last();
                let f: int = if is_letter(c, 'k', 'K') {
                    1024
                } else if is_letter(c, 'm', 'M') {
                    1048576
                } else if is_letter(c, 'g', 'G') {
                    1073741824
                } else {
                    0
                };
                if v > u32::MAX {
                    Err((ArgFault::Parse, "number too large to fit in target type"@))
                } else if f == 0 {
                    Err((ArgFault::Parse, "Failed to parse size unit"@))
                } else if v * f > u32::MAX {
                    Err((ArgFault::Parse, "Size is too large"@))
                } else {
                    Ok(v * f)
                }
            },
            None => Err((ArgFault::Parse, u64_error(trimmed(s.drop_last())))),
        }
    }
}

/// The outcome of reading `args` from position `i` on, with `flags` and the
/// file `file` found so far.
pub open spec fn parse_from(
    args: Seq<String>,
    i: int,
    flags: Flags,
    file: Option<Seq<char>>,
) -> Result<(Flags, Option<Seq<char>>), (ArgFault, Seq<char>)>
    decreases args.len() - i,
{
    if i < 0 || i >= args.len() {
        Ok((flags, file))
    } else {
        let a = args[i]@;
        if a == "--recursive"@ || a == "-r"@ {
            parse_from(args, i + 1, Flags { recursive: true, ..flags }, file)
        } else if a == "--life-duration"@ {
            if i + 1 >= args.len() {
                Err((ArgFault::Invalid, "Missing value for --life-duration"@))
            } else {
                match life_hours(args[i + 1]@) {
                    Some(h) => parse_from(args, i + 2, Flags { life_duration: h as u32, ..flags }, file),
                    None => Err((ArgFault::Parse, life_error(args[i + 1]@))),
                }
            }
        } else if a == "--size-limit"@ {
            if i + 1 >= args.len() {
                Err((ArgFault::Invalid, "Missing value for --size-limit"@))
            } else {
                match size_bytes(args[i + 1]@) {
                    Ok(b) => parse_from(args, i + 2, Flags { size_limit: b as u32, ..flags }, file),
                    Err(e) => Err(e),
                }
            }
        } else if a == "--no-store"@ || a == "-n"@ {
            parse_from(args, i + 1, Flags { store: false, ..flags }, file)
        } else if a.len() > 0 && a[0] != '-' {
            parse_from(args, i + 1, flags, Some(a))
        } else {
            Err((ArgFault::Invalid, "Invalid argument: "@ + a))
        }
    }
}

/// The outcome of a whole command line; `args[0]` is the program's name.
/// A command line that names no file is invalid.
pub open spec fn parse_spec(args: Seq<String>) -> Result<(Flags, Seq<char>), (ArgFault, Seq<char>)> {
    match parse_from(args, 1, default_flags(), None) {
        Ok((f, Some(file))) => Ok((f, file)),
        Ok((_, None)) => Err((ArgFault::Invalid, "No file string found"@)),
        Err(e) => Err(e),
    }
}

/// Whether `e` is the error of kind `fault` with message `msg`.
pub open spec fn error_is(e: Error, fault: (ArgFault, Seq<char>)) -> bool {
    match e.kind {
        ErrorKind::ParseError(m) => fault.0 == ArgFault::Parse && m@ == fault.1,
        ErrorKind::InvalidArg(m) => fault.0 == ArgFault::Invalid && m@ == fault.1,
        _ => false,
    }
}

/// The text of an optional string.
pub open spec fn opt_view(o: Option<String>) -> Option<Seq<char>> {
    match o {
        Some(f) => Some(f@),
        None => None,
    }
}

/// Whether `a` holds exactly the text `w`.
fn is_word(a: &String, w: &str) -> (r: bool)
    ensures
        r == (a@ == w@),
{
    String::from_str(w) == *a
}

fn parse_error(msg: &str) -> (r: Error)
    ensures
        error_is(r, (ArgFault::Parse, msg@)),
{
    Error::new(ErrorKind::ParseError(String::from_str(msg)))
}

fn invalid_arg(msg: &str) -> (r: Error)
    ensures
        error_is(r, (ArgFault::Invalid, msg@)),
{
    Error::new(ErrorKind::InvalidArg(String::from_str(msg)))
}

/// Reads the `srm` command line.
#[derive(Debug, Clone, Default)]
pub struct ArgParser;

impl ArgParser {
    /// Reads `args` (program name first): flags, and the file named last.
    pub fn parse(args: &[String]) -> (r: Result<ParsedArgs, Error>)
        ensures
            parse_spec(args@) is Ok <==> r is Ok,
            r matches Ok(p) ==> parse_spec(args@) matches Ok((f, file)) && p.flags == f
                && p.files@.len() == 1 && p.files@[0]@ == file,
            r matches Err(e) ==> parse_spec(args@) matches Err(f) && error_is(e, f),
    {
        let mut flags = Flags::default();
        let mut file: Option<String> = None;
        let n = args.len();
        let mut i: usize = 1;
        while i < n
            invariant
                n == args@.len(),
                1 <= i,
                parse_from(args@, 1, default_flags(), None) == parse_from(
                    args@,
                    i as int,
                    flags,
                    opt_view(file),
                ),
            decreases n - i,
        {
            let a = &args[i];
            if is_word(a, "--recursive") || is_word(a, "-r") {
                flags.recursive = true;
            } else if is_word(a, "--life-duration") {
                if i + 1 >= n {
                    return Err(invalid_arg("Missing value for --life-duration"));
                }
                i = i + 1;
                match Self::parse_life_duration(args[i].as_str()) {
                    Ok(h) => {
                        flags.life_duration = h;
                    },
                    Err(e) => {
                        return Err(e);
                    },
                }
            } else if is_word(a, "--size-limit") {
                if i + 1 >= n {
                    return Err(invalid_arg("Missing value for --size-limit"));
                }
                i = i + 1;
                match Self::parse_file_size(args[i].as_str()) {
                    Ok(b) => {
                        flags.size_limit = b;
                    },
                    Err(e) => {
                        return Err(e);
                    },
                }
            } else if is_word(a, "--no-store") || is_word(a, "-n") {
                flags.store = false;
            } else if a.as_str().unicode_len() > 0 && a.as_str().get_char(0) != '-' {
                file = Some(a.clone());
            } else {
                let mut msg = String::from_str("Invalid argument: ");
                msg.append(a.as_str());
                return Err(Error::new(ErrorKind::InvalidArg(msg)));
            }
            i = i + 1;
        }
        match file {
            Some(f) => {
                let mut files: Vec<String> = Vec::new();
                files.push(f);
                Ok(ParsedArgs { files, flags })
            },
            None => Err(invalid_arg("No file string found")),
        }
    }

    /// Hours denoted by a life duration such as `"12h"`, `"3d"` or `"2w"`.
    pub fn parse_life_duration(duration: &str) -> (r: Result<u32, Error>)
        ensures
            life_hours(duration@) is Some <==> r is Ok,
            r matches Ok(h) ==> h as int == life_hours(duration@)->Some_0,
            r matches Err(e) ==> e.kind is ParseError && error_is(
                e,
                (ArgFault::Parse, life_error(duration@)),
            ),
    {
        let len = duration.unicode_len();
        if len < 1 {
            return Err(parse_error("Empty duration"));
        }
        let value_str = duration.substring_char(0, len - 1);
        assert(value_str@ =~= duration@.drop_last());
        let value = match parse_u64(value_str) {
            Ok(v) if v <= u32::MAX as u64 => v,
            _ => {
                let mut msg = String::from_str("Failed to parse an integer: ");
                msg.append(value_str);
                return Err(Error::new(ErrorKind::ParseError(msg)));
            },
        };
        let c = duration.get_char(len - 1);
        let factor: u64 = if c == 'h' || c == 'H' {
            1
        } else if c == 'd' || c == 'D' {
            24
        } else if c == 'w' || c == 'W' {
            168
        } else {
            return Err(parse_error("Failed to parse duration unit"));
        };
        let total = value * factor;
        if total > u32::MAX as u64 {
            return Err(parse_error("Duration is too large"));
        }
        Ok(total as u32)
    }

    /// The message with which reading the life duration `s` fails.
pub open spec fn life_error(s: Seq<char>) -> Seq<char> {
    if s.len() < 1 {
        "Empty duration"@
    } else if parse_u64_spec(s.drop_last()) is None || parse_u64_spec(s.drop_last())->Some_0
        > u32::MAX {
        "Failed to parse an integer: "@ + s.drop_last()
    } else if !(is_letter(s.last(), 'h', 'H') || is_letter(s.last(), 'd', 'D') || is_letter(
        s.last(),
        'w',
        'W',
    )) {
        "Failed to parse duration unit"@
    } else {
        "Duration is too large"@
    }
}

/// Bytes denoted by a size such as `"10k"`, `"5M"` or `"1g"`.
    pub fn parse_file_size(size_str: &str) -> (r: Result<u32, Error>)
        ensures
            size_bytes(size_str@) is Ok <==> r is Ok,
            r matches Ok(b) ==> b as int == size_bytes(size_str@)->Ok_0,
            r matches Err(e) ==> size_bytes(size_str@) matches Err(f) && error_is(e, f),
    {
        let len = size_str.unicode_len();
        if len == 0 {
            return Err(invalid_arg("String is empty"));
        }
        let value_str = size_str.substring_char(0, len - 1);
        assert(value_str@ =~= size_str@.drop_last());
        let value = match parse_u64(trim_str(value_str)) {
            Ok(v) => v,
            Err(e) => return Err(Error::new(ErrorKind::ParseError(e))),
        };
        if value > u32::MAX as u64 {
            return Err(parse_error("number too large to fit in target type"));
        }
        let c = size_str.get_char(len - 1);
        let factor: u64 = if c == 'k' || c == 'K' {
            1024
        } else if c == 'm' || c == 'M' {
            1048576
        } else if c == 'g' || c == 'G' {
            1073741824
        } else {
            return Err(parse_error("Failed to parse size unit"));
        };
        let total = value * factor;
        if total > u32::MAX as u64 {
            return Err(parse_error("Size is too large"));
        }
        Ok(total as u32)
    }
}

} // verus!
