use asciir::text::{characters, push_padded, push_repeated};
use asciir::{ascii_table, report, run, Base, Cli, Mode, Report};

fn decimal() -> Mode {
    Mode {
        binary: false,
        hexadecimal: false,
    }
}

fn cli(mode: Mode, values: &[&str]) -> Cli {
    Cli {
        mode,
        values: values.iter().map(|v| v.to_string()).collect(),
    }
}

fn stdout(text: &str) -> Report {
    Report::Stdout(text.to_string())
}

fn stderr(text: &str) -> Report {
    Report::Stderr(text.to_string())
}

#[test]
fn a_numeral_shows_its_character() {
    assert_eq!(run(cli(decimal(), &["33"])), vec![stdout(" 33 = !")]);
    assert_eq!(report("33", Base::Decimal), stdout(" 33 = !"));
    assert_eq!(report("126", Base::Decimal), stdout("126 = ~"));
    assert_eq!(report("+0033", Base::Decimal), stdout("+0033 = !"));
    assert_eq!(report("21", Base::Hexadecimal), stdout(" 21 = !"));
    assert_eq!(report("100001", Base::Binary), stdout("100001 = !"));
}

#[test]
fn a_character_shows_its_codepoint() {
    assert_eq!(run(cli(decimal(), &["!"])), vec![stdout("  ! =  33")]);
    assert_eq!(report("!", Base::Decimal), stdout("  ! =  33"));
    assert_eq!(report("~", Base::Decimal), stdout("  ~ = 126"));
    assert_eq!(report("!", Base::Hexadecimal), stdout("  ! = 21"));
    assert_eq!(report("!", Base::Binary), stdout("  ! = 0100001"));
    assert_eq!(report("\t", Base::Decimal), stdout("  \t =   9"));
    assert_eq!(report("\u{7f}", Base::Binary), stdout("  \u{7f} = 1111111"));
    assert_eq!(report("9", Base::Binary), stdout("  9 = 0111001"));
}

#[test]
fn a_token_too_large_for_eight_bits_is_no_single_character() {
    assert_eq!(
        run(cli(decimal(), &["256"])),
        vec![stderr("Input \"256\" must be a single character")]
    );
}

#[test]
fn a_numeral_out_of_range_is_reported_on_standard_error() {
    assert_eq!(
        run(cli(decimal(), &["127"])),
        vec![stderr("Codepoint 127 not in the range 33-126")]
    );
    assert_eq!(
        report("0", Base::Decimal),
        stderr("Codepoint 0 not in the range 33-126")
    );
    assert_eq!(
        report("\u{e9}", Base::Decimal),
        stderr("\u{e9} is not an ASCII value")
    );
    assert_eq!(
        report("", Base::Decimal),
        stderr("Input \"\" must be a single character")
    );
}

#[test]
fn a_failed_token_does_not_stop_the_rest() {
    let reports = run(cli(decimal(), &["33", "256", "!", "\u{1f600}", "5", "A", "65"]));
    assert_eq!(
        reports,
        vec![
            stdout(" 33 = !"),
            stderr("Input \"256\" must be a single character"),
            stdout("  ! =  33"),
            stderr("\u{1f600} is not an ASCII value"),
            stderr("Codepoint 5 not in the range 33-126"),
            stdout("  A =  65"),
            stdout(" 65 = A"),
        ]
    );
}

#[test]
fn no_tokens_give_the_table() {
    let reports = run(cli(decimal(), &[]));
    assert_eq!(reports.len(), 1);
    assert_eq!(reports[0], Report::Stdout(ascii_table(Base::Decimal).join("\n")));
    match &reports[0] {
        Report::Stdout(text) => {
            assert!(text.starts_with(" 33: !   52: 4   71: G   90: Z  109: m\n 34: \""));
            assert!(text.ends_with("\n 51: 3   70: F   89: Y  108: l  127: DEL"));
            assert_eq!(text.lines().count(), 19);
        }
        Report::Stderr(_) => panic!("the table goes to standard output"),
    }
    let binary = Mode {
        binary: true,
        hexadecimal: false,
    };
    assert_eq!(
        run(cli(binary, &[])),
        vec![Report::Stdout(ascii_table(Base::Binary).join("\n"))]
    );
}

#[test]
fn the_flags_select_the_base() {
    assert_eq!(decimal().base(), Base::Decimal);
    let binary = Mode {
        binary: true,
        hexadecimal: false,
    };
    assert_eq!(binary.base(), Base::Binary);
    let hexadecimal = Mode {
        binary: false,
        hexadecimal: true,
    };
    assert_eq!(hexadecimal.base(), Base::Hexadecimal);
    let both = Mode {
        binary: true,
        hexadecimal: true,
    };
    assert_eq!(both.base(), Base::Binary);
    assert_eq!(run(cli(hexadecimal, &["7e", "~"])), vec![stdout(" 7e = ~"), stdout("  ~ = 7e")]);
    assert_eq!(
        run(cli(binary, &["1111110", "~"])),
        vec![stdout("1111110 = ~"), stdout("  ~ = 1111110")]
    );
}

#[test]
fn padding_counts_characters() {
    assert_eq!(report("\u{e9}\u{e9}", Base::Decimal), stderr("Input \"\u{e9}\u{e9}\" must be a single character"));
    let mut s = String::from(">");
    push_padded(&mut s, "\u{e9}", 3, ' ');
    assert_eq!(s, ">  \u{e9}");
    push_padded(&mut s, "abcd", 3, ' ');
    assert_eq!(s, ">  \u{e9}abcd");
    push_padded(&mut s, "", 2, '0');
    assert_eq!(s, ">  \u{e9}abcd00");
    push_repeated(&mut s, '-', 3);
    push_repeated(&mut s, '-', 0);
    assert_eq!(s, ">  \u{e9}abcd00---");
    assert_eq!(characters(&s), s.chars().collect::<Vec<char>>());
    assert_eq!(characters("\u{1f600}!"), vec!['\u{1f600}', '!']);
    assert_eq!(characters(""), Vec::<char>::new());
}
