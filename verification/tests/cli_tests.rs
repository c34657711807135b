use gdip_snapshot::cli::{
    parse_args, parse_i32, parse_rectangle, same_text, CliError, Field, Invocation,
};
use gdip_snapshot::region::CaptureMode;

fn args(list: &[&str]) -> Vec<String> {
    list.iter().map(|s| s.to_string()).collect()
}

#[test]
fn integers_are_read_as_std_reads_them() {
    for s in [
        "0", "-0", "+0", "7", "-7", "+7", "0042", "2147483647", "-2147483648", "2147483648",
        "-2147483649", "99999999999999999999", "-99999999999999999999", "", "-", "+", "--1",
        "+-1", "1-", " 1", "1 ", "1.0", "0x10", "1e3", "١٢", "12a", "a12", "000000000000000000001",
        "4294967296", "+2147483647", "+2147483648",
    ] {
        assert_eq!(parse_i32(s), s.parse::<i32>().ok(), "{:?}", s);
    }
}

#[test]
fn integer_limits() {
    assert_eq!(parse_i32("2147483647"), Some(i32::MAX));
    assert_eq!(parse_i32("-2147483648"), Some(i32::MIN));
    assert_eq!(parse_i32("2147483648"), None);
    assert_eq!(parse_i32("-2147483649"), None);
    assert_eq!(parse_i32("-1920"), Some(-1920));
}

#[test]
fn rectangle_reports_the_first_bad_number() {
    assert_eq!(
        parse_rectangle("1", "2", "3", "4"),
        Ok(CaptureMode::ExplicitRect { x: 1, y: 2, width: 3, height: 4 })
    );
    assert_eq!(parse_rectangle("a", "b", "c", "d"), Err(CliError::NotAnInteger(Field::X)));
    assert_eq!(parse_rectangle("1", "b", "c", "d"), Err(CliError::NotAnInteger(Field::Y)));
    assert_eq!(parse_rectangle("1", "2", "c", "d"), Err(CliError::NotAnInteger(Field::Width)));
    assert_eq!(parse_rectangle("1", "2", "3", "d"), Err(CliError::NotAnInteger(Field::Height)));
}

#[test]
fn explicit_rectangle_invocation() {
    assert_eq!(
        parse_args(&args(&["snap", "0", "0", "100", "50", "out.png"])),
        Ok(Invocation {
            mode: CaptureMode::ExplicitRect { x: 0, y: 0, width: 100, height: 50 },
            file: 5
        })
    );
    assert_eq!(
        parse_args(&args(&["snap", "-1920", "-5", "3840", "1080", "wide.bmp"])),
        Ok(Invocation {
            mode: CaptureMode::ExplicitRect { x: -1920, y: -5, width: 3840, height: 1080 },
            file: 5
        })
    );
}

#[test]
fn rectangle_size_is_not_judged_by_the_command_line() {
    assert_eq!(
        parse_args(&args(&["snap", "0", "0", "0", "50", "out.png"])),
        Ok(Invocation {
            mode: CaptureMode::ExplicitRect { x: 0, y: 0, width: 0, height: 50 },
            file: 5
        })
    );
}

#[test]
fn bad_numbers_in_the_command_line() {
    assert_eq!(
        parse_args(&args(&["snap", "x", "0", "100", "50", "out.png"])),
        Err(CliError::NotAnInteger(Field::X))
    );
    assert_eq!(
        parse_args(&args(&["snap", "0", "", "100", "50", "out.png"])),
        Err(CliError::NotAnInteger(Field::Y))
    );
    assert_eq!(
        parse_args(&args(&["snap", "0", "0", "1e2", "50", "out.png"])),
        Err(CliError::NotAnInteger(Field::Width))
    );
    assert_eq!(
        parse_args(&args(&["snap", "0", "0", "100", "3000000000", "out.png"])),
        Err(CliError::NotAnInteger(Field::Height))
    );
}

#[test]
fn flags_select_the_display() {
    assert_eq!(
        parse_args(&args(&["snap", "--full", "wide.bmp"])),
        Ok(Invocation { mode: CaptureMode::FullVirtualDesktop, file: 2 })
    );
    assert_eq!(
        parse_args(&args(&["snap", "--primary", "shot.jpg"])),
        Ok(Invocation { mode: CaptureMode::PrimaryDisplay, file: 2 })
    );
    assert_eq!(parse_args(&args(&["snap", "--Full", "wide.bmp"])), Err(CliError::Usage));
    assert_eq!(parse_args(&args(&["snap", "-full", "wide.bmp"])), Err(CliError::Usage));
    assert_eq!(parse_args(&args(&["snap", "wide.bmp", "--full"])), Err(CliError::Usage));
}

#[test]
fn a_lone_file_name_means_the_primary_display() {
    assert_eq!(
        parse_args(&args(&["snap", "shot.jpg"])),
        Ok(Invocation { mode: CaptureMode::PrimaryDisplay, file: 1 })
    );
    assert_eq!(
        parse_args(&args(&["snap", "--full"])),
        Ok(Invocation { mode: CaptureMode::PrimaryDisplay, file: 1 })
    );
}

#[test]
fn anything_else_is_usage() {
    assert_eq!(parse_args(&args(&[])), Err(CliError::Usage));
    assert_eq!(parse_args(&args(&["snap"])), Err(CliError::Usage));
    assert_eq!(parse_args(&args(&["snap", "1", "2", "out.png"])), Err(CliError::Usage));
    assert_eq!(parse_args(&args(&["snap", "1", "2", "3", "out.png"])), Err(CliError::Usage));
    assert_eq!(
        parse_args(&args(&["snap", "1", "2", "3", "4", "out.png", "more"])),
        Err(CliError::Usage)
    );
}

#[test]
fn same_text_is_exact() {
    assert!(same_text("--full", "--full"));
    assert!(!same_text("--full", "--fulL"));
    assert!(!same_text("--full", "--ful"));
    assert!(same_text("", ""));
}
