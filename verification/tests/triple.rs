use nasm::triple::{format_x86, format_x86_64, parse_triple, str_eq};

#[test]
fn x86_64_linux_gives_elf64() {
    assert_eq!(parse_triple("x86_64-unknown-linux-gnu"), "-felf64");
}

#[test]
fn x86_64_darwin_gives_elf64() {
    assert_eq!(parse_triple("x86_64-apple-darwin"), "-felf64");
}

#[test]
fn x86_64_bare_metal_gives_elf64() {
    assert_eq!(parse_triple("x86_64-unknown-none"), "-felf64");
}

#[test]
fn x86_64_windows_gives_win64() {
    assert_eq!(parse_triple("x86_64-pc-windows-msvc"), "-fwin64");
}

#[test]
fn x86_darwin_gives_machos32() {
    assert_eq!(parse_triple("x86-apple-darwin"), "-fmachos32");
}

#[test]
fn x86_linux_gives_elf32() {
    assert_eq!(parse_triple("x86-unknown-linux-gnu"), "-felf32");
}

#[test]
fn x86_bare_metal_gives_elf32() {
    assert_eq!(parse_triple("x86-unknown-none"), "-felf32");
}

#[test]
fn x86_windows_gives_win32() {
    assert_eq!(parse_triple("x86-pc-windows-gnu"), "-fwin32");
}

#[test]
fn unrecognized_arch_gives_empty() {
    assert_eq!(parse_triple("arm-unknown-linux"), "");
}

#[test]
fn unrecognized_os_gives_empty() {
    assert_eq!(parse_triple("x86_64-unknown-plan9"), "");
}

#[test]
fn two_components_default_to_os_none() {
    assert_eq!(parse_triple("x86_64-unknown"), "-felf64");
    assert_eq!(parse_triple("x86-unknown"), "-felf32");
}

#[test]
fn bare_arch_defaults_to_os_none() {
    assert_eq!(parse_triple("x86_64"), "-felf64");
}

#[test]
fn empty_identifier_gives_empty() {
    assert_eq!(parse_triple(""), "");
}

#[test]
fn trailing_dash_is_an_empty_component() {
    // "x86_64-" has two components, so the OS defaults to none.
    assert_eq!(parse_triple("x86_64-"), "-felf64");
}

#[test]
fn environment_component_is_ignored() {
    assert_eq!(
        parse_triple("x86_64-unknown-linux-gnu"),
        parse_triple("x86_64-unknown-linux-musl")
    );
}

#[test]
fn path_prefix_is_stripped() {
    assert_eq!(
        parse_triple("/usr/bin/x86_64-linux-gnu"),
        parse_triple("x86_64-linux-gnu")
    );
    // The third component of "x86_64-linux-gnu" is "gnu", an unrecognized OS.
    assert_eq!(parse_triple("/usr/bin/x86_64-linux-gnu"), "");
}

#[test]
fn path_prefix_with_recognized_triple() {
    assert_eq!(parse_triple("/opt/cross/x86_64-unknown-linux-gnu"), "-felf64");
}

#[test]
fn trailing_separator_leaves_nothing() {
    assert_eq!(parse_triple("x86_64-unknown-linux/"), "");
}

#[test]
fn format_tables_fall_back_to_empty() {
    assert_eq!(format_x86_64("solaris"), "");
    assert_eq!(format_x86("solaris"), "");
    assert_eq!(format_x86_64("windows"), "-fwin64");
    assert_eq!(format_x86("windows"), "-fwin32");
}

#[test]
fn str_eq_compares_contents() {
    assert!(str_eq("abc", "abc"));
    assert!(!str_eq("abc", "abd"));
    assert!(!str_eq("abc", "ab"));
    assert!(str_eq("", ""));
}
