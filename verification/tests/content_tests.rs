use grain::content::build_command_content;
use grain::content::build_default_content;
use grain::content::build_file_content;
use grain::content::source_timeout_ms;

fn lines(v: &[&str]) -> Vec<String> {
    v.iter().map(|s| s.to_string()).collect()
}

#[test]
fn command_output_drops_blanks_and_reddens_stderr() {
    let out = lines(&["out1", "", "   ", "out2"]);
    let err = lines(&["warn", "\t"]);
    assert_eq!(
        build_command_content(out, err),
        lines(&["out1", "out2", "\x1b[31mwarn\x1b[0m"])
    );
}

#[test]
fn stderr_follows_all_stdout() {
    let out = lines(&["a"]);
    let err = lines(&["e1", "e2"]);
    assert_eq!(
        build_command_content(out, err),
        lines(&["a", "\x1b[31me1\x1b[0m", "\x1b[31me2\x1b[0m"])
    );
}

#[test]
fn empty_command_output_yields_fallback_line() {
    assert_eq!(build_command_content(vec![], vec![]), lines(&["命令无输出"]));
    assert_eq!(
        build_command_content(lines(&["", "  "]), lines(&["\t"])),
        lines(&["命令无输出"])
    );
}

#[test]
fn file_lines_drop_blanks() {
    assert_eq!(
        build_file_content(lines(&["a", "", "b", " "]), "/tmp/x"),
        lines(&["a", "b"])
    );
}

#[test]
fn empty_file_yields_fallback_line() {
    assert_eq!(
        build_file_content(vec![], "/proc/interrupts"),
        lines(&["文件 /proc/interrupts 为空"])
    );
    assert_eq!(build_file_content(lines(&["", "  "]), "x"), lines(&["文件 x 为空"]));
}

#[test]
fn unicode_whitespace_lines_are_blank_too() {
    assert_eq!(
        build_command_content(lines(&["\u{b}"]), lines(&["\u{a0}\u{3000}"])),
        lines(&["命令无输出"])
    );
    assert_eq!(
        build_file_content(lines(&["a", "\u{a0}", "\u{2028}", "\u{85}"]), "x"),
        lines(&["a"])
    );
}

#[test]
fn empty_default_source_yields_its_own_fallback() {
    assert_eq!(build_default_content(vec![]), lines(&["/proc/interrupts 为空"]));
    assert_eq!(
        build_default_content(lines(&["", "\u{b}"])),
        lines(&["/proc/interrupts 为空"])
    );
    assert_eq!(build_default_content(lines(&["x", " "])), lines(&["x"]));
}

#[test]
fn source_timeout_is_four_fifths_clamped() {
    assert_eq!(source_timeout_ms(1000), 800);
    assert_eq!(source_timeout_ms(100), 100);
    assert_eq!(source_timeout_ms(125), 100);
    assert_eq!(source_timeout_ms(130), 104);
    assert_eq!(source_timeout_ms(3750), 3000);
    assert_eq!(source_timeout_ms(10_000), 3000);
    assert_eq!(source_timeout_ms(u64::MAX), 3000);
}
