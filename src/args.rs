//! Command-line arguments: a file, an output notation and a default tab
//! width.

use vstd::prelude::*;
use vstd::std_specs::iter::IteratorSpec;

verus! {

broadcast use vstd::string::axiom_spec_iter, vstd::string::next_postcondition;

/// The notation that an inferred style is written in.
#[derive(Clone, Copy, Debug, PartialEq, Eq, Structural)]
pub enum OutputFormat {
    /// `tab N`, `space N` or `tab+space T S`.
    Generic,
    /// An editor setting line: `set [no]expandtab tabstop=T shiftwidth=S`.
    Vim,
}

/// Why the arguments were refused.
#[derive(Clone, Copy, Debug, PartialEq, Eq, Structural)]
pub enum ArgError {
    /// No argument at all: the caller should show the usage text.
    Usage,
    TooFew,
    TooMany,
    InvalidFormat,
    InvalidTabWidth,
    ZeroTabWidth,
}

/// The text of each error.
pub open spec fn arg_error_text(e: ArgError) -> &'static str {
    match e {
        ArgError::Usage => "Missing arguments",
        ArgError::TooFew => "Too few arguments",
        ArgError::TooMany => "Too many arguments",
        ArgError::InvalidFormat => "Invalid output format",
        ArgError::InvalidTabWidth => "Invalid default tab width",
        ArgError::ZeroTabWidth => "Default tab width can't be zero",
    }
}

impl ArgError {
    /// A human-readable description of the error.
    pub fn message(&self) -> (r: String)
        ensures
            r@ == arg_error_text(*self)@,
    {
        let s: &str = match self {
            ArgError::Usage => "Missing arguments",
            ArgError::TooFew => "Too few arguments",
            ArgError::TooMany => "Too many arguments",
            ArgError::InvalidFormat => "Invalid output format",
            ArgError::InvalidTabWidth => "Invalid default tab width",
            ArgError::ZeroTabWidth => "Default tab width can't be zero",
        };
        String::from_str(s)
    }
}

/// The characters of a string, in order.
pub fn chars_of(s: &str) -> (r: Vec<char>)
    ensures
        r@ == s@,
{
    let mut out: Vec<char> = Vec::new();
    let mut chars = s.chars();
    loop
        invariant_except_break
            chars.obeys_prophetic_iter_laws(),
            s@ == out@ + chars.remaining(),
        invariant
            out@.len() <= s@.len(),
        ensures
            out@ == s@,
        decreases s@.len() - out@.len(),
    {
        let ghost rem = chars.remaining();
        match chars.next() {
            Some(c) => {
                out.push(c);
                assert(s@ =~= out@ + chars.remaining());
            },
            None => {
                assert(out@ =~= s@);
                break;
            },
        }
    }
    out
}

/// Whether two strings hold the same characters.
pub fn same_text(a: &str, b: &str) -> (r: bool)
    ensures
        r == (a@ == b@),
{
    let x = chars_of(a);
    let y = chars_of(b);
    if x.len() != y.len() {
        return false;
    }
    let mut i: usize = 0;
    while i < x.len()
        invariant
            x@ == a@,
            y@ == b@,
            x@.len() == y@.len(),
            i <= x@.len(),
            forall|j: int| 0 <= j < i ==> x@[j] == y@[j],
        decreases x@.len() - i,
    {
        if x[i] != y[i] {
            return false;
        }
        i = i + 1;
    }
    assert(x@ =~= y@);
    true
}

pub open spec fn is_digit(c: char) -> bool {
    '0' <= c <= '9'
}

/// The value of a string of decimal digits.
pub open spec fn digits_value(s: Seq<char>) -> nat
    decreases s.len(),
{
    if s.len() == 0 {
        0
    } else {
        digits_value(s.drop_last()) * 10 + (s.last() as nat - '0' as nat) as nat
    }
}

/// The digits of an unsigned number, after an optional leading `+`.
pub open spec fn unsigned_digits(s: Seq<char>) -> Seq<char> {
    if s.len() > 0 && s[0] == '+' {
        s.drop_first()
    } else {
        s
    }
}

/// The `u32` that a string spells in decimal: an optional `+`, then one or
/// more digits, with a value that fits.
pub open spec fn spec_parse_u32(s: Seq<char>) -> Option<u32> {
    let d = unsigned_digits(s);
    if d.len() > 0 && (forall|i: int| 0 <= i < d.len() ==> is_digit(#[trigger] d[i]))
        && digits_value(d) <= u32::MAX {
        Some(digits_value(d) as u32)
    } else {
        None
    }
}

/// Reads a `u32` written in decimal, with an optional leading `+`.
pub fn parse_u32(s: &str) -> (r: Option<u32>)
    ensures
        r == spec_parse_u32(s@),
{
    let cs = chars_of(s);
    let mut i: usize = 0;
    if cs.len() > 0 && cs[0] == '+' {
        i = 1;
    }
    let start = i;
    let ghost d = unsigned_digits(s@);
    assert(d =~= cs@.skip(start as int));
    if start == cs.len() {
        return None;
    }
    let mut value: u64 = 0;
    let mut over = false;
    while i < cs.len()
        invariant
            cs@ == s@,
            start <= i <= cs@.len(),
            d == cs@.skip(start as int),
            d == unsigned_digits(s@),
            forall|j: int| start <= j < i ==> is_digit(#[trigger] cs@[j]),
            !over ==> value == digits_value(cs@.subrange(start as int, i as int)) && value <= u32::MAX,
            over ==> digits_value(cs@.subrange(start as int, i as int)) > u32::MAX,
        decreases cs@.len() - i,
    {
        let c = cs[i];
        if !('0' <= c && c <= '9') {
            assert(d[i - start] == c);
            assert(!is_digit(d[i - start]));
            return None;
        }
        let ghost prev = cs@.subrange(start as int, i as int);
        assert(cs@.subrange(start as int, i + 1).drop_last() =~= prev);
        if !over {
            value = value * 10 + (c as u64 - '0' as u64);
            if value > u32::MAX as u64 {
                over = true;
            }
        }
        i = i + 1;
    }
    assert(cs@.subrange(start as int, i as int) =~= d);
    assert forall|k: int| 0 <= k < d.len() implies is_digit(#[trigger] d[k]) by {
        assert(d[k] == cs@[k + start]);
    }
    if over {
        None
    } else {
        Some(value as u32)
    }
}

/// The notation a word names, if any.
pub open spec fn format_named(s: Seq<char>) -> Option<OutputFormat> {
    if s == "generic"@ {
        Some(OutputFormat::Generic)
    } else if s == "vim"@ {
        Some(OutputFormat::Vim)
    } else {
        None
    }
}

/// What the arguments `FILE FORMAT DEFTABWIDTH` give: the notation and a
/// positive default tab width.
pub open spec fn spec_process_args(args: Seq<Seq<char>>) -> Result<(OutputFormat, u32), ArgError> {
    if args.len() == 0 {
        Err(ArgError::Usage)
    } else if args.len() < 3 {
        Err(ArgError::TooFew)
    } else if args.len() > 3 {
        Err(ArgError::TooMany)
    } else {
        match format_named(args[1]) {
            None => Err(ArgError::InvalidFormat),
            Some(f) => match spec_parse_u32(args[2]) {
                None => Err(ArgError::InvalidTabWidth),
                Some(w) => if w == 0 {
                    Err(ArgError::ZeroTabWidth)
                } else {
                    Ok((f, w))
                },
            },
        }
    }
}

pub open spec fn arg_views<'a>(args: Seq<&'a str>) -> Seq<Seq<char>> {
    args.map_values(|a: &'a str| a@)
}

/// Reads the arguments `FILE FORMAT DEFTABWIDTH`, returning the file name
/// as given, the output notation and the default tab width.
pub fn process_args<'a>(args: &[&'a str]) -> (r: Result<(&'a str, OutputFormat, u32), ArgError>)
    ensures
        r is Ok <==> spec_process_args(arg_views(args@)) is Ok,
        r is Ok ==> r->Ok_0.0 == args@[0] && (r->Ok_0.1, r->Ok_0.2) == spec_process_args(
            arg_views(args@),
        )->Ok_0,
        r is Err ==> spec_process_args(arg_views(args@)) == Err::<(OutputFormat, u32), ArgError>(
            r->Err_0,
        ),
{
    let ghost views = arg_views(args@);
    if args.len() == 0 {
        return Err(ArgError::Usage);
    } else if args.len() < 3 {
        return Err(ArgError::TooFew);
    } else if args.len() > 3 {
        return Err(ArgError::TooMany);
    }
    assert(views[1] == args@[1]@);
    assert(views[2] == args@[2]@);
    let output_format = if same_text(args[1], "generic") {
        OutputFormat::Generic
    } else if same_text(args[1], "vim") {
        OutputFormat::Vim
    } else {
        return Err(ArgError::InvalidFormat);
    };
    let def_tab_width = match parse_u32(args[2]) {
        Some(w) => w,
        None => {
            return Err(ArgError::InvalidTabWidth);
        },
    };
    if def_tab_width == 0 {
        return Err(ArgError::ZeroTabWidth);
    }
    Ok((args[0], output_format, def_tab_width))
}

} // verus!
