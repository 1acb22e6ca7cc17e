//! Where the daemon's IPC socket lives, and which file modes are too open
//! for it.
use vstd::prelude::*;
use crate::paths::{join_name, joined};
use crate::text::decimal_string;

verus! {

/// The socket's file name where it lives in a per-user directory.
pub open spec fn socket_file_name() -> Seq<char> {
    "prefetch.sock"@
}

/// The socket's path: in the per-user runtime directory where there is one
/// (`XDG_RUNTIME_DIR`), else in the per-user temporary directory
/// (`TMPDIR`), else in `/tmp` under a name that holds the process id.
pub fn socket_path_for(runtime_dir: Option<&str>, tmpdir: Option<&str>, pid: u32) -> (r: String)
    ensures
        runtime_dir matches Some(d) ==> r@ == joined(d@, socket_file_name()),
        runtime_dir is None ==> (tmpdir matches Some(t) ==> r@ == joined(t@, socket_file_name())),
        runtime_dir is None && tmpdir is None ==> r@ == "/tmp/prefetch-"@ + crate::text::spec_decimal(
            pid as nat,
        ) + ".sock"@,
{
    proof {
        reveal_strlit("prefetch.sock");
    }
    if let Some(d) = runtime_dir {
        return join_name(d, "prefetch.sock");
    }
    if let Some(t) = tmpdir {
        return join_name(t, "prefetch.sock");
    }
    let mut name = "prefetch-".to_string();
    let digits = decimal_string(pid as u64);
    name.append(digits.as_str());
    name.append(".sock");
    proof {
        reveal_strlit("prefetch-");
        reveal_strlit(".sock");
        reveal_strlit("/tmp");
        reveal_strlit("/tmp/prefetch-");
        reveal_strlit("/");
        assert(name@[0] == 'p');
    }
    let r = join_name("/tmp", name.as_str());
    proof {
        assert(joined("/tmp"@, name@) =~= "/tmp/prefetch-"@ + crate::text::spec_decimal(pid as nat)
            + ".sock"@);
    }
    r
}

/// The mode given to the socket and its directory: owner only.
pub const OWNER_ONLY_MODE: u32 = 0o700;

/// Whether a file mode lets its group or others in at all.
pub fn group_or_other_access(mode: u32) -> (r: bool)
    ensures
        r == (mode & 0o077u32 != 0),
{
    mode & 0o077 != 0
}

} // verus!
