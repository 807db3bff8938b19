//! How a refusal names the terminal a running installer sits on.

use crate::text::{cat3, chars_contain, chars_of, owned, starts_with, str_eq, string_of};
use vstd::prelude::*;

verus! {

/// A VT, a serial line or the system console: a node directly under `/dev`
/// whose name starts with `tty` or is `console`. The user can walk to it.
pub open spec fn console_path(path: Seq<char>) -> bool {
    let name = path.skip(5);
    &&& "/dev/"@.is_prefix_of(path)
    &&& !name.contains('/')
    &&& ("tty"@.is_prefix_of(name) || name == "console"@)
}

/// A pseudo-terminal, which no one can walk to.
pub open spec fn pty_path(path: Seq<char>) -> bool {
    "/dev/pts/"@.is_prefix_of(path) || path == "/dev/pts"@
}

/// How the refusal names a holder's terminal: a console as itself, a
/// pseudo-terminal as another session, and anything else, a terminal that
/// could not be read included, as another console. A pseudo-terminal is
/// never guessed at, because kmscon and sshd both give one.
pub open spec fn holder_text(link: Option<Seq<char>>) -> Seq<char> {
    match link {
        Some(path) => if console_path(path) {
            path
        } else if pty_path(path) {
            "another session ("@ + path + ")"@
        } else {
            "another console"@
        },
        None => "another console"@,
    }
}

/// Names the terminal a holder reads from. `link` is where its standard
/// input points, as the kernel writes the link, or nothing where it could
/// not be read.
pub fn holder_name(link: Option<&str>) -> (name: String)
    ensures
        name@ == holder_text(match link { Some(l) => Some(l@), None => None }),
{
    let path = match link {
        Some(path) => path,
        None => return owned("another console"),
    };
    let chars = chars_of(path);
    if starts_with(path, "/dev/") {
        proof {
            reveal_strlit("/dev/");
        }
        let name = crate::text::slice_from(chars.as_slice(), 5);
        assert(name@ =~= path@.skip(5));
        let leaf = string_of(name.as_slice());
        if !chars_contain(name.as_slice(), '/') && (starts_with(leaf.as_str(), "tty") || str_eq(leaf.as_str(), "console")) {
            return owned(path);
        }
    }
    if starts_with(path, "/dev/pts/") || str_eq(path, "/dev/pts") {
        return cat3("another session (", path, ")");
    }
    owned("another console")
}

} // verus!
