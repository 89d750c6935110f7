use csview::cmd_err::{message, CmdErr};
use csview::dispatch::{parse_command, Cmd, Parsed};
use csview::parse::tokenize;
use csview::sort::Sort;

#[test]
fn quit_in_both_spellings() {
    assert!(matches!(parse_command(&vec!["q"], 0, 1), Parsed::Run(Cmd::Quit)));
    assert!(matches!(parse_command(&vec!["quit"], 0, 1), Parsed::Run(Cmd::Quit)));
}

#[test]
fn empty_line_panics() {
    let t: Vec<&str> = Vec::new();
    assert!(matches!(parse_command(&t, 0, 1), Parsed::Panic));
}

#[test]
fn unknown_command_is_reported() {
    assert!(matches!(parse_command(&vec!["bogus"], 0, 1), Parsed::Fail(CmdErr::InvalidCommand("bogus"))));
}

#[test]
fn column_name_commands() {
    assert!(matches!(parse_command(&vec!["cn"], 0, 1), Parsed::Run(Cmd::ShowColName)));
    assert!(matches!(parse_command(&vec!["cn", "to", "x"], 0, 1), Parsed::Run(Cmd::RenameCol("x"))));
    assert!(matches!(parse_command(&vec!["cn", "f", "x"], 0, 1), Parsed::Run(Cmd::FindCol("x"))));
    assert!(matches!(parse_command(&vec!["cn", "to"], 0, 1), Parsed::Fail(CmdErr::MissingName("to"))));
    assert!(matches!(parse_command(&vec!["cn", "zz"], 0, 1), Parsed::Fail(CmdErr::UnknownSpec("zz"))));
}

#[test]
fn column_sort_orders() {
    assert!(matches!(parse_command(&vec!["col", "s"], 0, 1), Parsed::Run(Cmd::SortCol(Sort::AscAlph))));
    assert!(matches!(parse_command(&vec!["col", "sort", "ar"], 0, 1), Parsed::Run(Cmd::SortCol(Sort::DescAlph))));
    assert!(matches!(parse_command(&vec!["col", "s", "n"], 0, 1), Parsed::Run(Cmd::SortCol(Sort::AscNum))));
    assert!(matches!(parse_command(&vec!["col", "s", "nr"], 0, 1), Parsed::Run(Cmd::SortCol(Sort::DescNum))));
    assert!(matches!(parse_command(&vec!["col", "s", "x"], 0, 1), Parsed::Fail(CmdErr::UnknownSpec("x"))));
}

#[test]
fn column_subcommand_errors() {
    assert!(matches!(parse_command(&vec!["col"], 0, 1), Parsed::Fail(CmdErr::MissingSubCmd("col"))));
    assert!(matches!(parse_command(&vec!["col", "rm", "x"], 0, 1), Parsed::Fail(CmdErr::TooManyArgs("rm"))));
    assert!(matches!(parse_command(&vec!["col", "mv", "A"], 0, 1), Parsed::Fail(CmdErr::MissingLocation("mv"))));
    assert!(matches!(parse_command(&vec!["col", "mv"], 0, 1), Parsed::Fail(CmdErr::MissingRange("mv"))));
    assert!(matches!(parse_command(&vec!["col", "g"], 0, 1), Parsed::Fail(CmdErr::MissingList("g"))));
    assert!(matches!(parse_command(&vec!["col", "zap"], 0, 1), Parsed::Fail(CmdErr::InvalidSubCmd("zap"))));
    assert!(matches!(parse_command(&vec!["col", "r", "a"], 0, 1), Parsed::Fail(CmdErr::MissingValue("r"))));
}

#[test]
fn column_commands_with_words() {
    assert!(matches!(parse_command(&vec!["col", "r", "a", "b"], 0, 1), Parsed::Run(Cmd::Replace("a", "b"))));
    assert!(matches!(parse_command(&vec!["col", "mv", "A:B", "D"], 0, 1), Parsed::Run(Cmd::MoveCols("A:B", "D"))));
    assert!(matches!(parse_command(&vec!["col", "add"], 0, 1), Parsed::Run(Cmd::SumCol)));
    assert!(matches!(parse_command(&vec!["col", "u"], 0, 1), Parsed::Run(Cmd::UniqueValues)));
    assert!(matches!(parse_command(&vec!["col", "fn", "0"], 0, 1), Parsed::Run(Cmd::FillNa("0"))));
}

#[test]
fn row_insert_counts() {
    assert!(matches!(parse_command(&vec!["row", "i"], 0, 1), Parsed::Run(Cmd::InsertRows(1))));
    assert!(matches!(parse_command(&vec!["row", "insert", "5"], 0, 1), Parsed::Run(Cmd::InsertRows(5))));
    assert!(matches!(parse_command(&vec!["row", "i", "abc"], 0, 1), Parsed::Fail(CmdErr::InvalidDec("abc"))));
}

#[test]
fn row_subcommand_errors() {
    assert!(matches!(parse_command(&vec!["row", "mv", "1:2"], 0, 1), Parsed::Fail(CmdErr::MissingTarget("mv"))));
    assert!(matches!(parse_command(&vec!["row", "g"], 0, 1), Parsed::Fail(CmdErr::MissingLocation("g"))));
    assert!(matches!(parse_command(&vec!["row", "zap"], 0, 1), Parsed::Fail(CmdErr::InvalidSubCmd("row"))));
}

#[test]
fn sheet_commands() {
    assert!(matches!(parse_command(&vec!["sh", "s", "name"], 0, 1), Parsed::Run(Cmd::SortBy("name", Sort::AscAlph))));
    assert!(matches!(parse_command(&vec!["sheet", "s", "name", "nr"], 0, 1), Parsed::Run(Cmd::SortBy("name", Sort::DescNum))));
    assert!(matches!(parse_command(&vec!["sh", "s", "name", "q"], 0, 1), Parsed::Fail(CmdErr::InvalidArg("q"))));
    assert!(matches!(parse_command(&vec!["sh", "rv"], 0, 1), Parsed::Run(Cmd::RevertSheet)));
    assert!(matches!(parse_command(&vec!["sh", "sl", "c", "A:B"], 0, 1), Parsed::Run(Cmd::SliceCols("A:B"))));
    assert!(matches!(parse_command(&vec!["sh", "sl", "r", "1:2"], 0, 1), Parsed::Run(Cmd::SliceRows("1:2"))));
    assert!(matches!(parse_command(&vec!["sh", "sl", "x", "1"], 0, 1), Parsed::Fail(CmdErr::InvalidArg("x"))));
}

#[test]
fn splice_needs_another_sheet() {
    assert!(matches!(parse_command(&vec!["sh", "sp", "c", "0"], 0, 2), Parsed::Fail(CmdErr::SameCon)));
    assert!(matches!(parse_command(&vec!["sh", "sp", "c", "1"], 0, 2), Parsed::Run(Cmd::SpliceCols(1))));
    assert!(matches!(parse_command(&vec!["sh", "sp", "r", "1"], 0, 2), Parsed::Run(Cmd::SpliceRows(1))));
    assert!(matches!(parse_command(&vec!["sh", "sp", "c", "7"], 0, 2), Parsed::Fail(CmdErr::InvalidConId("7"))));
    assert!(matches!(parse_command(&vec!["sh", "sp", "c"], 0, 2), Parsed::Fail(CmdErr::MissingConId("splice"))));
}

#[test]
fn tokenize_splits_on_spaces_outside_quotes() {
    let t = tokenize("col r 'a b' c", ' ').unwrap();
    assert_eq!(t.len(), 4);
    assert_eq!(t[0], "col");
    assert_eq!(t[1], "r");
    assert_eq!(t[3], "c");
}

#[test]
fn error_messages_go_on_the_given_line() {
    assert_eq!(
        message(&CmdErr::InvalidCommand("x"), 24),
        "\x1b[24;1H\x1b[2KERR: invalid command 'x'"
    );
    assert_eq!(
        message(&CmdErr::MissingName("to"), 5),
        "\x1b[5;1H\x1b[2KERR: missing name for 'to'"
    );
}
