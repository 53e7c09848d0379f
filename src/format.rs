//! Writing an inferred style in one of the two output notations.

use vstd::prelude::*;
use crate::args::OutputFormat;

verus! {

/// The digit character of a value below ten.
pub open spec fn digit_char(d: nat) -> char {
    if d == 0 {
        '0'
    } else if d == 1 {
        '1'
    } else if d == 2 {
        '2'
    } else if d == 3 {
        '3'
    } else if d == 4 {
        '4'
    } else if d == 5 {
        '5'
    } else if d == 6 {
        '6'
    } else if d == 7 {
        '7'
    } else if d == 8 {
        '8'
    } else {
        '9'
    }
}

/// The decimal spelling of a natural, without leading zeros.
pub open spec fn decimal(n: nat) -> Seq<char>
    decreases n,
{
    if n < 10 {
        seq![digit_char(n)]
    } else {
        decimal(n / 10).push(digit_char(n % 10))
    }
}

/// The one-character string of a digit.
fn digit_str(d: u32) -> (r: &'static str)
    requires
        d < 10,
    ensures
        r@ == seq![digit_char(d as nat)],
{
    proof {
        reveal_strlit("0");
        reveal_strlit("1");
        reveal_strlit("2");
        reveal_strlit("3");
        reveal_strlit("4");
        reveal_strlit("5");
        reveal_strlit("6");
        reveal_strlit("7");
        reveal_strlit("8");
        reveal_strlit("9");
    }
    match d {
        0 => "0",
        1 => "1",
        2 => "2",
        3 => "3",
        4 => "4",
        5 => "5",
        6 => "6",
        7 => "7",
        8 => "8",
        _ => "9",
    }
}

/// Writes a number in decimal.
pub fn to_decimal(n: u32) -> (r: String)
    ensures
        r@ == decimal(n as nat),
    decreases n,
{
    if n < 10 {
        String::from_str(digit_str(n))
    } else {
        let mut s = to_decimal(n / 10);
        s.append(digit_str(n % 10));
        s
    }
}

/// The text of a tab width and space unit in a notation. A zero tab width
/// means pure spaces, a zero space unit pure tabs.
pub open spec fn formatted(tab_width: u32, sp_unit: u32, output_format: OutputFormat) -> Seq<char> {
    match output_format {
        OutputFormat::Generic => if sp_unit == 0 {
            "tab "@ + decimal(tab_width as nat)
        } else if tab_width == 0 {
            "space "@ + decimal(sp_unit as nat)
        } else {
            "tab+space "@ + decimal(tab_width as nat) + " "@ + decimal(sp_unit as nat)
        },
        OutputFormat::Vim => {
            let expandtab = sp_unit != 0 && tab_width == 0;
            let tabstop = if sp_unit == 0 || tab_width != 0 {
                tab_width
            } else {
                sp_unit
            };
            let shiftwidth = if sp_unit == 0 {
                tab_width
            } else {
                sp_unit
            };
            "set "@ + (if expandtab {
                ""@
            } else {
                "no"@
            }) + "expandtab tabstop="@ + decimal(tabstop as nat) + " shiftwidth="@ + decimal(
                shiftwidth as nat,
            )
        },
    }
}

/// Writes a validated (tab width, space unit) pair in the chosen notation.
pub fn format_indent(indent: (u32, u32), output_format: OutputFormat) -> (r: String)
    requires
        !(indent.0 == 0 && indent.1 == 0),
    ensures
        r@ == formatted(indent.0, indent.1, output_format),
{
    let (tab_width, sp_unit) = indent;
    match output_format {
        OutputFormat::Generic => {
            if sp_unit == 0 {
                let mut s = String::from_str("tab ");
                s.append(to_decimal(tab_width).as_str());
                s
            } else if tab_width == 0 {
                let mut s = String::from_str("space ");
                s.append(to_decimal(sp_unit).as_str());
                s
            } else {
                let mut s = String::from_str("tab+space ");
                s.append(to_decimal(tab_width).as_str());
                s.append(" ");
                s.append(to_decimal(sp_unit).as_str());
                s
            }
        },
        OutputFormat::Vim => {
            let (expandtab, tabstop, shiftwidth) = if sp_unit == 0 {
                (false, tab_width, tab_width)
            } else if tab_width == 0 {
                (true, sp_unit, sp_unit)
            } else {
                (false, tab_width, sp_unit)
            };
            let mut s = String::from_str("set ");
            s.append(if expandtab { "" } else { "no" });
            s.append("expandtab tabstop=");
            s.append(to_decimal(tabstop).as_str());
            s.append(" shiftwidth=");
            s.append(to_decimal(shiftwidth).as_str());
            s
        },
    }
}

} // verus!
