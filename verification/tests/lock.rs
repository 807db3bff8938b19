use installer::lock::holder_name;

/// A refusal names a console as itself, a pseudo-terminal as another
/// session, and anything else as another console.
#[test]
fn the_holder_terminal_is_named_for_the_user() {
    assert_eq!(holder_name(Some("/dev/tty2")), "/dev/tty2");
    assert_eq!(holder_name(Some("/dev/ttyS0")), "/dev/ttyS0");
    assert_eq!(holder_name(Some("/dev/console")), "/dev/console");
    assert_eq!(holder_name(Some("/dev/pts/3")), "another session (/dev/pts/3)");
    assert_eq!(holder_name(Some("/dev/null")), "another console");
    assert_eq!(holder_name(Some("/dev/char/tty1")), "another console");
    assert_eq!(holder_name(Some("pipe:[4021]")), "another console");
    assert_eq!(holder_name(None), "another console");
}
