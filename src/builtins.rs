//! The argument rules of the builtin commands `cd` and `exit`.
//!
//! Each function decides what the builtin is to do from its arguments; the
//! program around the library performs it (enters the directory, ends the
//! process).
use vstd::prelude::*;

use crate::text::chars_of;

verus! {

/// Where `cd` goes.
#[derive(Debug, PartialEq, Eq)]
pub enum CdTarget {
    /// The user's home directory.
    Home,
    /// The directory named by the argument.
    Path(String),
}

/// The mathematical form of a `CdTarget`.
pub enum CdTargetView {
    Home,
    Path(Seq<char>),
}

impl View for CdTarget {
    type V = CdTargetView;

    open spec fn view(&self) -> CdTargetView {
        match self {
            CdTarget::Home => CdTargetView::Home,
            CdTarget::Path(p) => CdTargetView::Path(p@),
        }
    }
}

/// Why a builtin refused its arguments.
#[derive(Debug, PartialEq, Eq, Clone, Copy, Structural)]
pub enum BuiltinError {
    /// More arguments than the builtin takes.
    TooManyArguments,
    /// The status given to `exit` is not a number from 0 to 255.
    InvalidStatus,
}

/// The views of a sequence of strings.
pub open spec fn strings_view(v: Seq<String>) -> Seq<Seq<char>> {
    v.map_values(|s: String| s@)
}

/// What `cd` does with the arguments `args`.
pub open spec fn cd_spec(args: Seq<Seq<char>>) -> Result<CdTargetView, BuiltinError> {
    if args.len() == 0 {
        Ok(CdTargetView::Home)
    } else if args.len() == 1 {
        Ok(CdTargetView::Path(args[0]))
    } else {
        Err(BuiltinError::TooManyArguments)
    }
}

/// Decides where `cd` goes: home without an argument, the directory named by
/// the sole argument, and an error with more.
pub fn cd(args: &Vec<String>) -> (r: Result<CdTarget, BuiltinError>)
    ensures
        match r {
            Ok(t) => cd_spec(strings_view(args@)) == Ok::<CdTargetView, BuiltinError>(t@),
            Err(e) => cd_spec(strings_view(args@)) == Err::<CdTargetView, BuiltinError>(e),
        },
{
    if args.len() == 0 {
        Ok(CdTarget::Home)
    } else if args.len() == 1 {
        Ok(CdTarget::Path(args[0].clone()))
    } else {
        Err(BuiltinError::TooManyArguments)
    }
}

/// Whether `c` is an ASCII decimal digit.
pub open spec fn is_digit(c: char) -> bool {
    '0' <= c <= '9'
}

/// The value of the decimal digit `c`.
pub open spec fn digit_value(c: char) -> nat {
    (c as nat - '0' as nat) as nat
}

/// The number that the decimal digits `s` spell.
pub open spec fn decimal_value(s: Seq<char>) -> nat
    decreases s.len(),
{
    if s.len() == 0 {
        0
    } else {
        decimal_value(s.drop_last()) * 10 + digit_value(s.last())
    }
}

/// Whether every character of `d` is a decimal digit.
pub open spec fn all_digits(d: Seq<char>) -> bool {
    forall|i: int| 0 <= i < d.len() ==> is_digit(#[trigger] d[i])
}

/// The digits of a status: what follows an optional leading `+`.
pub open spec fn status_digits(s: Seq<char>) -> Seq<char> {
    if s.len() > 0 && s[0] == '+' {
        s.drop_first()
    } else {
        s
    }
}

/// The exit status that `s` spells: an optional `+`, then one or more
/// decimal digits whose value is at most 255.
pub open spec fn status_of(s: Seq<char>) -> Option<u8> {
    if status_digits(s).len() > 0 && all_digits(status_digits(s)) && decimal_value(status_digits(s))
        <= 255 {
        Some(decimal_value(status_digits(s)) as u8)
    } else {
        None
    }
}

/// Reads an exit status from `s`.
pub fn parse_status(s: &str) -> (r: Option<u8>)
    ensures
        r == status_of(s@),
{
    let cs = chars_of(s);
    let ghost d = status_digits(s@);
    let first: usize = if cs.len() > 0 && cs[0] == '+' {
        1
    } else {
        0
    };
    assert(d =~= cs@.subrange(first as int, cs.len() as int));
    if first == cs.len() {
        return None;
    }
    let mut value: u32 = 0;
    let mut i: usize = first;
    while i < cs.len()
        invariant
            cs@ == s@,
            d == status_digits(s@),
            d == cs@.subrange(first as int, cs.len() as int),
            first <= i <= cs.len(),
            forall|k: int| 0 <= k < i - first ==> is_digit(#[trigger] d[k]),
            value <= 256,
            value == if decimal_value(d.take(i - first)) <= 256 {
                decimal_value(d.take(i - first))
            } else {
                256
            },
        decreases cs.len() - i,
    {
        let c = cs[i];
        if !('0' <= c && c <= '9') {
            assert(!is_digit(d[i - first]));
            return None;
        }
        let digit: u32 = (c as u32) - ('0' as u32);
        assert(d.take(i - first + 1).drop_last() =~= d.take(i - first));
        let next: u32 = value * 10 + digit;
        value = if next > 256 {
            256
        } else {
            next
        };
        i = i + 1;
    }
    assert(d.take(d.len() as int) =~= d);
    if value > 255 {
        None
    } else {
        Some(value as u8)
    }
}

/// What `exit` does with the arguments `args`: the status to end with.
pub open spec fn exit_spec(args: Seq<Seq<char>>) -> Result<u8, BuiltinError> {
    if args.len() == 0 {
        Ok(0)
    } else if args.len() == 1 {
        match status_of(args[0]) {
            Some(n) => Ok(n),
            None => Err(BuiltinError::InvalidStatus),
        }
    } else {
        Err(BuiltinError::TooManyArguments)
    }
}

/// Decides the status that `exit` ends the process with: 0 without an
/// argument, the sole argument read as a number from 0 to 255, and an error
/// when that argument is no such number or when there are more.
pub fn exit(args: &Vec<String>) -> (r: Result<u8, BuiltinError>)
    ensures
        r == exit_spec(strings_view(args@)),
{
    if args.len() == 0 {
        Ok(0)
    } else if args.len() == 1 {
        match parse_status(args[0].as_str()) {
            Some(n) => Ok(n),
            None => Err(BuiltinError::InvalidStatus),
        }
    } else {
        Err(BuiltinError::TooManyArguments)
    }
}

} // verus!
