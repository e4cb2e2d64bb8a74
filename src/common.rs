use vstd::prelude::*;

verus! {

pub const APP_NAME: &'static str = "RepoTaskRun";

pub const RUN_REGKEY_NAME: &'static str = "RepoTaskRun";

pub const REPO_DIR_NAME: &'static str = "repo";

pub const STATE_FILE_NAME: &'static str = "state.bin";

/// `part` appended to the path `base` as one more component.
pub open spec fn join_path(base: Seq<char>, part: Seq<char>) -> Seq<char> {
    if base.len() == 0 {
        part
    } else if base.last() == '\\' || base.last() == '/' {
        base + part
    } else {
        base + seq!['\\'] + part
    }
}

/// Appends `part` to the path `base` as one more component.
pub fn push_path(base: &str, part: &str) -> (r: String)
    ensures
        r@ == join_path(base@, part@),
{
    let n = base.unicode_len();
    let mut r = String::from_str(base);
    if n > 0 {
        let last = base.get_char(n - 1);
        if last != '\\' && last != '/' {
            r.append("\\");
            proof {
                reveal_strlit("\\");
            }
        }
    }
    r.append(part);
    proof {
        reveal_strlit("\\");
    }
    assert(r@ =~= join_path(base@, part@));
    r
}

/// The per-user install directory below the local application data directory.
pub fn get_user_install_path(local_appdata: &str) -> (r: String)
    ensures
        r@ == join_path(local_appdata@, APP_NAME@),
{
    push_path(local_appdata, APP_NAME)
}

/// The machine-wide install directory below the program data directory.
pub fn get_system_install_path(programdata: &str) -> (r: String)
    ensures
        r@ == join_path(programdata@, APP_NAME@),
{
    push_path(programdata, APP_NAME)
}

/// The machine-wide repository checkout below the program data directory.
pub fn get_system_repository_path(programdata: &str) -> (r: String)
    ensures
        r@ == join_path(join_path(programdata@, APP_NAME@), REPO_DIR_NAME@),
{
    let p = push_path(programdata, APP_NAME);
    push_path(p.as_str(), REPO_DIR_NAME)
}

/// The per-user repository checkout below the local application data directory.
pub fn get_user_repository_path(local_appdata: &str) -> (r: String)
    ensures
        r@ == join_path(join_path(local_appdata@, APP_NAME@), REPO_DIR_NAME@),
{
    let p = push_path(local_appdata, APP_NAME);
    push_path(p.as_str(), REPO_DIR_NAME)
}

/// Where the run state of the audience is stored, below its data directory.
pub fn get_state_file_path(data_dir: &str) -> (r: String)
    ensures
        r@ == join_path(join_path(data_dir@, APP_NAME@), STATE_FILE_NAME@),
{
    let p = push_path(data_dir, APP_NAME);
    push_path(p.as_str(), STATE_FILE_NAME)
}

} // verus!
