use nbterm::commands::{cell_index, parse_command, parse_decimal, parse_trimmed, Command};

fn show(c: Command) -> String {
    format!("{:?}", c)
}

#[test]
fn keywords_are_recognised() {
    assert_eq!(show(parse_command("q")), "Quit");
    assert_eq!(show(parse_command("  quit ")), "Quit");
    assert_eq!(show(parse_command("q!")), "ForceQuit");
    assert_eq!(show(parse_command("write")), "Write");
    assert_eq!(show(parse_command("x")), "WriteQuit");
    assert_eq!(show(parse_command("ra")), "RunAll");
    assert_eq!(show(parse_command("run-all")), "RunAll");
    assert_eq!(show(parse_command("restart")), "Restart");
    assert_eq!(show(parse_command("restart!")), "RestartAndRunAll");
    assert_eq!(show(parse_command("interrupt")), "Interrupt");
}

#[test]
fn numbers_go_to_cells_and_lines() {
    assert_eq!(show(parse_command("3c")), "GotoCell(3)");
    assert_eq!(show(parse_command("+12c")), "GotoCell(12)");
    assert_eq!(show(parse_command("12")), "GotoLine(12)");
    assert_eq!(show(parse_command("abc")), "Unknown");
    assert_eq!(show(parse_command("c")), "Unknown");
    assert_eq!(show(parse_command("99999999999999999999999c")), "Unknown");
}

#[test]
fn write_to_file() {
    assert_eq!(show(parse_command("w  out.ipynb ")), "WriteTo(\"out.ipynb\")");
    assert_eq!(show(parse_trimmed("w notes.ipynbc")), "Unknown");
    assert_eq!(show(parse_trimmed("wx")), "Unknown");
}

#[test]
fn decimal_parsing() {
    assert_eq!(parse_decimal("0"), Some(0));
    assert_eq!(parse_decimal("+7"), Some(7));
    assert_eq!(parse_decimal("18446744073709551615"), Some(usize::MAX));
    assert_eq!(parse_decimal("18446744073709551616"), None);
    assert_eq!(parse_decimal(""), None);
    assert_eq!(parse_decimal("+"), None);
    assert_eq!(parse_decimal("-1"), None);
    assert_eq!(parse_decimal("1 2"), None);
}

#[test]
fn cell_positions() {
    assert_eq!(cell_index(1, 3), Some(0));
    assert_eq!(cell_index(3, 3), Some(2));
    assert_eq!(cell_index(0, 3), None);
    assert_eq!(cell_index(4, 3), None);
}
