//! Turning command-line arguments into what the run should do.
use vstd::prelude::*;

use crate::error::CustomError;
use crate::text::chars_of;

verus! {

/// What a run is asked to do: search the tree under `root` for both manifests, and replace
/// the `index`-th `<version>` tag of the build manifest.
#[derive(Debug)]
pub struct Invocation {
    pub root: String,
    pub index: u8,
}

/// The tokens that ask for the usage text.
pub open spec fn is_help_token(s: Seq<char>) -> bool {
    s == "-h"@ || s == "-help"@ || s == "--help"@ || s == "-H"@
}

/// Every character is an ASCII digit, and there is at least one.
pub open spec fn is_decimal(s: Seq<char>) -> bool {
    s.len() > 0 && forall|i: int| 0 <= i < s.len() ==> '0' <= #[trigger] s[i] <= '9'
}

/// The number that a string of decimal digits writes.
pub open spec fn decimal_value(s: Seq<char>) -> int
    decreases s.len(),
{
    if s.len() == 0 {
        0
    } else {
        decimal_value(s.drop_last()) * 10 + (s.last() as int - '0' as int)
    }
}

/// The digits of an index: `s` without one leading `+`, if it has one.
pub open spec fn index_digits(s: Seq<char>) -> Seq<char> {
    if s.len() > 0 && s[0] == '+' {
        s.drop_first()
    } else {
        s
    }
}

/// The number that `d` writes, where it is decimal digits for a number up to 255.
pub open spec fn parsed_digits(d: Seq<char>) -> Option<u8> {
    if is_decimal(d) && decimal_value(d) <= 255 {
        Some(decimal_value(d) as u8)
    } else {
        None
    }
}

/// The occurrence index that `s` writes: an optional `+`, then decimal digits for a number
/// up to 255.
pub open spec fn parsed_index(s: Seq<char>) -> Option<u8> {
    parsed_digits(index_digits(s))
}

/// `r` asks for discovery under `root` with that occurrence index.
pub open spec fn is_discover(r: Result<Invocation, CustomError>, root: Seq<char>, index: int) -> bool {
    match r {
        Ok(inv) => inv.root@ == root && inv.index == index,
        _ => false,
    }
}

proof fn lemma_decimal_prefix_grows(s: Seq<char>, a: int, b: int)
    requires
        0 <= a <= b <= s.len(),
        forall|i: int| 0 <= i < s.len() ==> '0' <= #[trigger] s[i] <= '9',
    ensures
        0 <= decimal_value(s.take(a)) <= decimal_value(s.take(b)),
    decreases b,
{
    if b > 0 {
        assert(s.take(b).drop_last() =~= s.take(b - 1));
        if a < b {
            lemma_decimal_prefix_grows(s, a, b - 1);
        } else {
            lemma_decimal_prefix_grows(s, a - 1, b - 1);
        }
    }
}

/// The number that the digits `d` write, as `parsed_digits` says.
fn parse_digits(d: &Vec<char>) -> (r: Option<u8>)
    ensures
        r == parsed_digits(d@),
{
    if d.len() == 0 {
        return None;
    }
    let mut acc: u32 = 0;
    let mut i: usize = 0;
    while i < d.len()
        invariant
            i <= d.len(),
            forall|j: int| 0 <= j < i ==> '0' <= #[trigger] d@[j] <= '9',
            acc == decimal_value(d@.take(i as int)),
            acc <= 255,
        decreases d.len() - i,
    {
        let c = d[i];
        if c < '0' || c > '9' {
            return None;
        }
        assert(d@.take(i + 1).drop_last() =~= d@.take(i as int));
        let next = acc * 10 + (c as u32 - '0' as u32);
        if next > 255 {
            proof {
                if is_decimal(d@) {
                    lemma_decimal_prefix_grows(d@, i + 1, d@.len() as int);
                    assert(d@.take(d@.len() as int) =~= d@);
                }
            }
            return None;
        }
        acc = next;
        i = i + 1;
    }
    assert(d@.take(d.len() as int) =~= d@);
    Some(acc as u8)
}

/// The occurrence index that `s` writes, as `parsed_index` says.
pub fn parse_index(s: &str) -> (r: Option<u8>)
    ensures
        r == parsed_index(s@),
{
    let cs = chars_of(s);
    let start: usize = if cs.len() > 0 && cs[0] == '+' {
        1
    } else {
        0
    };
    let mut digits: Vec<char> = Vec::new();
    let mut i: usize = start;
    while i < cs.len()
        invariant
            cs@ == s@,
            start <= i <= cs.len(),
            digits@ == cs@.subrange(start as int, i as int),
        decreases cs.len() - i,
    {
        digits.push(cs[i]);
        i = i + 1;
    }
    assert(digits@ =~= index_digits(s@));
    parse_digits(&digits)
}

/// Whether `s` is exactly `lit`.
fn text_is(s: &String, lit: &str) -> (r: bool)
    ensures
        r == (s@ == lit@),
{
    *s == lit.to_owned()
}

/// What the arguments ask for; the first argument is the program's name. The shape is
/// `[-p <dir> [index]] | -h | -help | --help | -H`:
///
/// - none: discovery under the current directory, index 0;
/// - one help token: `HelpPrinted`;
/// - `-p <dir>`: discovery under `dir`, index 0;
/// - `-p <dir> <index>`: discovery under `dir` with that index.
///
/// An index that is not an optional `+` and decimal digits for a number up to 255, and any
/// other shape, give `BadParams`.
pub fn handle_params(args: Vec<String>) -> (r: Result<Invocation, CustomError>)
    ensures
        args.len() <= 1 ==> is_discover(r, "."@, 0),
        args.len() == 2 ==> r == if is_help_token(args[1]@) {
            Err::<Invocation, CustomError>(CustomError::HelpPrinted)
        } else {
            Err::<Invocation, CustomError>(CustomError::BadParams)
        },
        args.len() == 3 ==> if args[1]@ == "-p"@ {
            is_discover(r, args[2]@, 0)
        } else {
            r == Err::<Invocation, CustomError>(CustomError::BadParams)
        },
        args.len() == 4 ==> match parsed_index(args[3]@) {
            Some(n) if args[1]@ == "-p"@ => is_discover(r, args[2]@, n as int),
            _ => r == Err::<Invocation, CustomError>(CustomError::BadParams),
        },
        args.len() > 4 ==> r == Err::<Invocation, CustomError>(CustomError::BadParams),
{
    let n = args.len();
    if n <= 1 {
        return Ok(Invocation { root: ".".to_owned(), index: 0 });
    }
    if n == 2 {
        let a = &args[1];
        if text_is(a, "-h") || text_is(a, "-help") || text_is(a, "--help") || text_is(a, "-H") {
            return Err(CustomError::HelpPrinted);
        }
        return Err(CustomError::BadParams);
    }
    if n == 3 {
        if text_is(&args[1], "-p") {
            return Ok(Invocation { root: args[2].clone(), index: 0 });
        }
        return Err(CustomError::BadParams);
    }
    if n == 4 {
        if !text_is(&args[1], "-p") {
            return Err(CustomError::BadParams);
        }
        return match parse_index(args[3].as_str()) {
            Some(index) => Ok(Invocation { root: args[2].clone(), index }),
            None => Err(CustomError::BadParams),
        };
    }
    Err(CustomError::BadParams)
}

} // verus!
