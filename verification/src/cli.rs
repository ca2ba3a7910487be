//! The entry operation: what to print for a command line.

use crate::base::Base;
use crate::convert::{convert, spec_convert, Convert};
use crate::table::{table, table_text};
use crate::text::{joined, pad_left, push_padded, texts};
use vstd::prelude::*;
use vstd::string::StringExecFns;

verus! {

/// The choice of base on the command line. Neither flag set means
/// decimal.
#[derive(Clone, Copy, Debug, PartialEq, Eq, Structural)]
pub struct Mode {
    pub binary: bool,
    pub hexadecimal: bool,
}

impl Mode {
    /// The base that the flags select. Binary goes first if both are
    /// set.
    pub open spec fn spec_base(self) -> Base {
        if self.binary {
            Base::Binary
        } else if self.hexadecimal {
            Base::Hexadecimal
        } else {
            Base::Decimal
        }
    }

    /// The base that the flags select.
    pub fn base(&self) -> (base: Base)
        ensures
            base == self.spec_base(),
    {
        if self.binary {
            Base::Binary
        } else if self.hexadecimal {
            Base::Hexadecimal
        } else {
            Base::Decimal
        }
    }
}

/// The command line: the base and the tokens to convert.
#[derive(Debug)]
pub struct Cli {
    pub mode: Mode,
    pub values: Vec<String>,
}

/// One thing to print, and where: a result on standard output, or a
/// complaint on standard error. A line break follows either.
#[derive(Debug, PartialEq, Eq)]
pub enum Report {
    Stdout(String),
    Stderr(String),
}

/// A `Report` with its text as a sequence of characters.
pub enum ReportView {
    Stdout(Seq<char>),
    Stderr(Seq<char>),
}

impl View for Report {
    type V = ReportView;

    open spec fn view(&self) -> ReportView {
        match self {
            Report::Stdout(text) => ReportView::Stdout(text@),
            Report::Stderr(text) => ReportView::Stderr(text@),
        }
    }
}

/// The reports as their views.
pub open spec fn report_views(reports: Seq<Report>) -> Seq<ReportView> {
    reports.map_values(|r: Report| r@)
}

/// What is shown for a converted token: the other side of the pair. A
/// token that is the character itself gets the codepoint, in the field
/// of the base; any other token gets the character.
pub open spec fn shown(token: Seq<char>, pair: Convert, base: Base) -> Seq<char> {
    if token == seq![pair.character] {
        base.spec_field(pair.codepoint)
    } else {
        seq![pair.character]
    }
}

/// The report on one token: on standard output the token, right-aligned
/// in three places, ` = ` and what is shown for it; or on standard
/// error the message of the error.
pub open spec fn spec_report(token: Seq<char>, base: Base) -> ReportView {
    match spec_convert(token, base) {
        Ok(pair) => ReportView::Stdout(pad_left(token, 3, ' ') + " = "@ + shown(token, pair, base)),
        Err(e) => ReportView::Stderr(e.message()),
    }
}

/// What a run prints: with no tokens the table, as one text; else the
/// report on each token, in the order of the tokens.
pub open spec fn spec_run(tokens: Seq<Seq<char>>, base: Base) -> Seq<ReportView> {
    if tokens.len() == 0 {
        seq![ReportView::Stdout(joined(table(base), "\n"@))]
    } else {
        tokens.map_values(|token: Seq<char>| spec_report(token, base))
    }
}

/// Converts one token and says what to print for it.
pub fn report(val: &str, base: Base) -> (res: Report)
    ensures
        res@ == spec_report(val@, base),
{
    match convert(val, base) {
        Ok(translated) => {
            let mut line = String::new();
            push_padded(&mut line, val, 3, ' ');
            line.append(" = ");
            if val.unicode_len() == 1 && val.get_char(0) == translated.character {
                assert(val@ =~= seq![translated.character]);
                let show = base.field(translated.codepoint);
                line.append(show.as_str());
            } else {
                line.push(translated.character);
            }
            assert(line@ =~= pad_left(val@, 3, ' ') + " = "@ + shown(val@, translated, base));
            Report::Stdout(line)
        },
        Err(e) => Report::Stderr(e.message()),
    }
}

/// Says what to print for a command line: the table if it has no
/// tokens, else one report for each token, a failed one among them
/// stopping nothing.
pub fn run(args: Cli) -> (reports: Vec<Report>)
    ensures
        report_views(reports@) == spec_run(texts(args.values@), args.mode.spec_base()),
        reports@.len() == if args.values@.len() == 0 {
            1
        } else {
            args.values@.len()
        },
{
    let base = args.mode.base();
    let mut reports: Vec<Report> = Vec::new();
    if args.values.len() == 0 {
        reports.push(Report::Stdout(table_text(base)));
        assert(report_views(reports@) =~= spec_run(texts(args.values@), base));
    } else {
        let mut i: usize = 0;
        while i < args.values.len()
            invariant
                i <= args.values.len(),
                reports.len() == i,
                forall|j: int|
                    0 <= j < i ==> (#[trigger] reports@[j])@ == spec_report(args.values@[j]@, base),
            decreases args.values.len() - i,
        {
            reports.push(report(args.values[i].as_str(), base));
            i = i + 1;
        }
        assert(report_views(reports@) =~= spec_run(texts(args.values@), base));
    }
    reports
}

} // verus!
