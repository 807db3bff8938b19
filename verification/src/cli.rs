//! The installer's command line as plain values, what the flags hand the
//! form, and the line a refused run ends with.

use crate::answers::Given;
use crate::text::{cat, ends_with, str_eq};
use vstd::prelude::*;

verus! {

/// The flags. Every one is optional, because the screen asks for what the
/// words leave out; a default here would answer a question the user was
/// never asked, and this program erases disks.
pub struct Args {
    /// The payload root, else the one a `TECT` partition or this media
    /// carries.
    pub from: Option<String>,
    /// The block device to erase and install onto.
    pub disk: Option<String>,
    /// What the installed machine is called.
    pub hostname: Option<String>,
    /// The account to create, in the target's admin group.
    pub user: Option<String>,
    /// Its password, hashed before it is written anywhere.
    pub password: Option<String>,
    /// The encryption kind; none by default.
    pub encryption: Option<String>,
    /// What unlocks the disk, for the two kinds named for it.
    pub passphrase: Option<String>,
    /// Typed at every unlock beside the TPM policy, for `tpm2-luks-pin` alone.
    pub pin: Option<String>,
    /// Ask nothing, and fail naming the flag a missing answer needs.
    pub no_tui: bool,
}

impl Args {
    /// What the flags give the form to open on.
    pub fn given(self) -> (g: Given)
        ensures
            g.disk == self.disk,
            g.hostname == self.hostname,
            g.user == self.user,
            g.password == self.password,
            g.encryption == self.encryption,
            g.passphrase == self.passphrase,
            g.pin == self.pin,
    {
        Given {
            disk: self.disk,
            hostname: self.hostname,
            user: self.user,
            password: self.password,
            encryption: self.encryption,
            passphrase: self.passphrase,
            pin: self.pin,
        }
    }
}

/// Whether the words are the one probe installer media runs to see that the
/// program starts.
pub fn version_asked(words: &Vec<String>) -> (r: bool)
    ensures
        r == (words@.len() == 1 && words@[0]@ == "--version"@),
{
    words.len() == 1 && str_eq(words[0].as_str(), "--version")
}

/// The line a refused run ends with. A message that is already a sentence,
/// or a block of sentences, keeps its own punctuation; any other gains a
/// full stop.
pub open spec fn error_text(message: Seq<char>) -> Seq<char> {
    let kept = message.len() > 0 && (message.last() == '.' || message.last() == '!' || message.last() == '?')
        || message.contains('\n');
    "Error: "@ + message + if kept { Seq::empty() } else { "."@ }
}

pub fn error_line(message: &str) -> (line: String)
    ensures
        line@ == error_text(message@),
{
    let chars = crate::text::chars_of(message);
    let n = chars.len();
    let kept = (n > 0 && (chars[n - 1] == '.' || chars[n - 1] == '!' || chars[n - 1] == '?'))
        || crate::text::chars_contain(chars.as_slice(), '\n');
    let mut line = cat("Error: ", message);
    if !kept {
        line.append(".");
    } else {
        proof {
            assert(line@ =~= "Error: "@ + message@ + Seq::<char>::empty());
        }
    }
    line
}

} // verus!
