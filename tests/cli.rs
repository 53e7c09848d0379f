use indentdetect::args::{parse_u32, process_args, same_text, ArgError, OutputFormat};
use indentdetect::format::{format_indent, to_decimal};

#[test]
fn args_accepted() {
    assert_eq!(process_args(&["f.rs", "vim", "8"]), Ok(("f.rs", OutputFormat::Vim, 8)));
    assert_eq!(process_args(&["a", "generic", "+4"]), Ok(("a", OutputFormat::Generic, 4)));
}

#[test]
fn args_counted() {
    assert_eq!(process_args(&[]), Err(ArgError::Usage));
    assert_eq!(process_args(&["f"]), Err(ArgError::TooFew));
    assert_eq!(process_args(&["f", "vim"]), Err(ArgError::TooFew));
    assert_eq!(process_args(&["f", "vim", "8", "x"]), Err(ArgError::TooMany));
}

#[test]
fn args_bad_values() {
    assert_eq!(process_args(&["f", "emacs", "8"]), Err(ArgError::InvalidFormat));
    assert_eq!(process_args(&["f", "Vim", "8"]), Err(ArgError::InvalidFormat));
    assert_eq!(process_args(&["f", "vim", "x"]), Err(ArgError::InvalidTabWidth));
    assert_eq!(process_args(&["f", "vim", "-1"]), Err(ArgError::InvalidTabWidth));
    assert_eq!(process_args(&["f", "vim", "0"]), Err(ArgError::ZeroTabWidth));
    assert_eq!(ArgError::TooFew.message(), "Too few arguments");
}

#[test]
fn parse_u32_like_std() {
    for s in ["0", "7", "+7", "007", "4294967295", "4294967296", "", "+", "-3", "1 ", "9x", "99999999999999999999"] {
        assert_eq!(parse_u32(s), s.parse::<u32>().ok(), "{:?}", s);
    }
}

#[test]
fn text_comparison() {
    assert!(same_text("vim", "vim"));
    assert!(!same_text("vim", "vi"));
    assert!(!same_text("", "x"));
}

#[test]
fn decimal_text() {
    assert_eq!(to_decimal(0), "0");
    assert_eq!(to_decimal(40), "40");
    assert_eq!(to_decimal(u32::MAX), "4294967295");
}

#[test]
fn generic_notation() {
    assert_eq!(format_indent((8, 0), OutputFormat::Generic), "tab 8");
    assert_eq!(format_indent((0, 2), OutputFormat::Generic), "space 2");
    assert_eq!(format_indent((6, 2), OutputFormat::Generic), "tab+space 6 2");
}

#[test]
fn vim_notation() {
    assert_eq!(format_indent((8, 0), OutputFormat::Vim), "set noexpandtab tabstop=8 shiftwidth=8");
    assert_eq!(format_indent((0, 4), OutputFormat::Vim), "set expandtab tabstop=4 shiftwidth=4");
    assert_eq!(format_indent((12, 4), OutputFormat::Vim), "set noexpandtab tabstop=12 shiftwidth=4");
}
