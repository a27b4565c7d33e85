use fex_rootfs_gen::escape::systemd_escape_path;

#[test]
fn test_systemd_escape_path() {
    let escaped = systemd_escape_path("/foo/bar/fex-emu/rootfs");
    assert_eq!(escaped, "foo-bar-fex\\x2demu-rootfs.mount");
}

#[test]
fn escape_is_deterministic() {
    let a = systemd_escape_path("/var/lib/fex-emu/rootfs");
    let b = systemd_escape_path("/var/lib/fex-emu/rootfs");
    assert_eq!(a, b);
}

#[test]
fn escape_empty_path_is_dash() {
    assert_eq!(systemd_escape_path(""), "-.mount");
    assert_eq!(systemd_escape_path("/////"), "-.mount");
}

#[test]
fn escape_collapses_slash_runs_and_trims() {
    assert_eq!(systemd_escape_path("///a//b///"), "a-b.mount");
}

#[test]
fn escape_leading_dot() {
    assert_eq!(systemd_escape_path("/.hidden"), "\\x2ehidden.mount");
    assert_eq!(systemd_escape_path("/a/.hidden"), "a-.hidden.mount");
}

#[test]
fn escape_unsafe_bytes_as_hex() {
    assert_eq!(systemd_escape_path("/a b"), "a\\x20b.mount");
    assert_eq!(systemd_escape_path("/x:y_z.9"), "x:y_z.9.mount");
}

#[test]
fn escape_multibyte_utf8_byte_for_byte() {
    // 'é' is the two UTF-8 bytes 0xc3 0xa9; each is escaped on its own.
    assert_eq!(systemd_escape_path("/\u{e9}"), "\\xc3\\xa9.mount");
}
