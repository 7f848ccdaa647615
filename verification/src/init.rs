//! Repository initialization: the directories and files a fresh store
//! root consists of. The caller checks the root does not already exist,
//! creates these directories and writes these files.

use vstd::prelude::*;
use vstd::string::{StrSliceExecFns, StringExecFns};

verus! {

/// The layout a fresh repository is created with: the store root's
/// directories, the initial HEAD, and the opaque config file.
#[derive(Debug, Clone)]
pub struct InitLayout {
    pub dirs: Vec<String>,
    pub head_path: String,
    pub head_content: String,
    pub config_path: String,
    pub config_content: String,
}

/// The layout to create under a store root: the root itself, the object
/// store, the branch refs, the reserved remote refs, a HEAD attached to
/// the default branch, and the config file.
pub fn init(git_dir: &str) -> (r: InitLayout)
    ensures
        r.dirs@.len() == 4,
        r.dirs@[0]@ == git_dir@,
        r.dirs@[1]@ == git_dir@ + "/objects"@,
        r.dirs@[2]@ == git_dir@ + "/refs/heads"@,
        r.dirs@[3]@ == git_dir@ + "/refs/remotes"@,
        r.head_path@ == git_dir@ + "/HEAD"@,
        r.head_content@ == "ref: refs/heads/main"@,
        r.config_path@ == git_dir@ + "/config"@,
        r.config_content@ == "[\n  \"core\"\n]\n"@,
{
    let mut dirs: Vec<String> = Vec::new();
    dirs.push(git_dir.to_owned());
    dirs.push(git_dir.to_owned().concat("/objects"));
    dirs.push(git_dir.to_owned().concat("/refs/heads"));
    dirs.push(git_dir.to_owned().concat("/refs/remotes"));
    InitLayout {
        dirs,
        head_path: git_dir.to_owned().concat("/HEAD"),
        head_content: "ref: refs/heads/main".to_owned(),
        config_path: git_dir.to_owned().concat("/config"),
        config_content: "[\n  \"core\"\n]\n".to_owned(),
    }
}

} // verus!
