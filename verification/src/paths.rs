//! Where the tool keeps its files, under a given home directory. Looking the
//! home directory up is the caller's part; these functions only build the
//! paths.

use vstd::prelude::*;
use vstd::string::StringExecFns;

verus! {

/// The configuration directory under the given home directory.
pub fn config_dir(home: &str) -> (r: String)
    ensures
        r@ == home@ + "/.config/todo"@,
{
    let mut out = String::from_str(home);
    out.append("/.config/todo");
    out
}

/// The task file under the given home directory.
pub fn tasks_file(home: &str) -> (r: String)
    ensures
        r@ == home@ + "/.config/todo/tasks.ron"@,
{
    let mut out = config_dir(home);
    out.append("/tasks.ron");
    proof {
        reveal_strlit("/.config/todo");
        reveal_strlit("/tasks.ron");
        reveal_strlit("/.config/todo/tasks.ron");
        assert((home@ + "/.config/todo"@) + "/tasks.ron"@ =~= home@ + "/.config/todo/tasks.ron"@);
    }
    out
}

} // verus!
