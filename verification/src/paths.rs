//! Where the application keeps its files, as paths in text form.
use vstd::prelude::*;

verus! {

/// Directory of the application under the user's configuration directory.
pub const APP_DIR_NAME: &'static str = "job-mailer";

/// File of the settings.
pub const SETTINGS_FILE_NAME: &'static str = "settings.json";

/// File of the generation history.
pub const HISTORY_FILE_NAME: &'static str = "generation_history.json";

/// File of the diagnostic log.
pub const DEBUG_LOG_FILE_NAME: &'static str = "debug-9dc719.log";

/// Error when there is no configuration directory.
pub const NO_CONFIG_DIR_ERROR: &'static str = "无法解析本机配置目录";

/// What `std::path::Path::parent` returns for a path, taken as text.
pub uninterp spec fn path_parent(path: Seq<char>) -> Option<Seq<char>>;

/// `base` joined with `name` as `PathBuf::push` does on Unix: a name that begins with
/// `/` replaces the base; else a `/` goes between them unless the base is empty or already
/// ends with one.
pub open spec fn joined(base: Seq<char>, name: Seq<char>) -> Seq<char> {
    if name.len() > 0 && name[0] == '/' {
        name
    } else if base.len() == 0 || base.last() == '/' {
        base + name
    } else {
        base + seq!['/'] + name
    }
}

/// The directory of the application: `APP_DIR_NAME` under the configuration
/// directory, or an error when there is none.
pub open spec fn app_data_dir_for(config_dir: Option<Seq<char>>) -> Result<Seq<char>, Seq<char>> {
    match config_dir {
        Some(d) => Ok(joined(d, APP_DIR_NAME@)),
        None => Err(NO_CONFIG_DIR_ERROR@),
    }
}

/// An optional text taken by its view.
pub open spec fn text_view(o: Option<String>) -> Option<Seq<char>> {
    match o {
        Some(s) => Some(s@),
        None => None,
    }
}

/// The parent of `path` joined with the names in `names`, in order; none when `path`
/// has no parent.
pub open spec fn under_parent(path: Seq<char>, up: nat, names: Seq<Seq<char>>) -> Option<
    Seq<char>,
>
    decreases up,
{
    if up == 0 {
        Some(joined_all(path, names))
    } else {
        match path_parent(path) {
            Some(p) => under_parent(p, (up - 1) as nat, names),
            None => None,
        }
    }
}

/// `base` joined with each of `names` in turn.
pub open spec fn joined_all(base: Seq<char>, names: Seq<Seq<char>>) -> Seq<char>
    decreases names.len(),
{
    if names.len() == 0 {
        base
    } else {
        joined_all(joined(base, names[0]), names.drop_first())
    }
}

/// Calls `std::path::Path::parent` on `path` and hands back the parent as text. Its
/// documentation: the path without its final component, `Some("")` for a relative path
/// of one component, `None` when the path ends in a root or prefix or is empty. The
/// contract names the result.
#[verifier::external_body]
fn parent_of(path: &str) -> (r: Option<String>)
    ensures
        text_view(r) == path_parent(path@),
{
    std::path::Path::new(path).parent().and_then(|p| p.to_str()).map(|p| p.to_string())
}

/// `base` joined with `name` (see `joined`).
pub fn join_path(base: &str, name: &str) -> (r: String)
    ensures
        r@ == joined(base@, name@),
{
    let nv = crate::text::chars_of(name);
    if nv.len() > 0 && nv[0] == '/' {
        return String::from_str(name);
    }
    let bv = crate::text::chars_of(base);
    if bv.len() == 0 || bv[bv.len() - 1] == '/' {
        String::from_str(base).concat(name)
    } else {
        proof {
            reveal_strlit("/");
        }
        String::from_str(base).concat("/").concat(name)
    }
}

/// The directory of the application under `config_dir`, the user's configuration
/// directory when one is known.
pub fn app_data_dir(config_dir: Option<String>) -> (r: Result<String, String>)
    ensures
        match r {
            Ok(d) => app_data_dir_for(text_view(config_dir)) == Ok::<Seq<char>, Seq<char>>(d@),
            Err(e) => app_data_dir_for(text_view(config_dir)) == Err::<Seq<char>, Seq<char>>(e@),
        },
{
    match config_dir {
        Some(d) => Ok(join_path(d.as_str(), APP_DIR_NAME)),
        None => Err(String::from_str(NO_CONFIG_DIR_ERROR)),
    }
}

/// The settings file in the application directory `data_dir`.
pub fn app_settings_path(data_dir: &str) -> (r: String)
    ensures
        r@ == joined(data_dir@, SETTINGS_FILE_NAME@),
{
    join_path(data_dir, SETTINGS_FILE_NAME)
}

/// The history file in the application directory `data_dir`.
pub fn history_path(data_dir: &str) -> (r: String)
    ensures
        r@ == joined(data_dir@, HISTORY_FILE_NAME@),
{
    join_path(data_dir, HISTORY_FILE_NAME)
}

/// The diagnostic log beside the package directory `package_dir`: in its parent.
pub fn job_mailer_package_debug_log_path(package_dir: &str) -> (r: Option<String>)
    ensures
        text_view(r) == under_parent(package_dir@, 1, seq![DEBUG_LOG_FILE_NAME@]),
{
    let parent = parent_of(package_dir);
    proof {
        reveal_with_fuel(under_parent, 2);
        reveal_with_fuel(joined_all, 2);
    }
    match parent {
        Some(p) => Some(join_path(p.as_str(), DEBUG_LOG_FILE_NAME)),
        None => None,
    }
}

/// The diagnostic log in `.cursor` of the repository root, two levels above the
/// package directory `package_dir`.
pub fn repo_root_cursor_debug_log_path(package_dir: &str) -> (r: Option<String>)
    ensures
        text_view(r) == under_parent(package_dir@, 2, seq![".cursor"@, DEBUG_LOG_FILE_NAME@]),
{
    proof {
        reveal_with_fuel(under_parent, 3);
        reveal_with_fuel(joined_all, 3);
    }
    match parent_of(package_dir) {
        Some(p) => match parent_of(p.as_str()) {
            Some(root) => {
                let dir = join_path(root.as_str(), ".cursor");
                proof {
                    assert(seq![".cursor"@, DEBUG_LOG_FILE_NAME@].drop_first() == seq![DEBUG_LOG_FILE_NAME@]);
                }
                Some(join_path(dir.as_str(), DEBUG_LOG_FILE_NAME))
            },
            None => None,
        },
        None => None,
    }
}

/// The diagnostic log in `context-infrastructure/tmp` of the repository root, two
/// levels above the package directory `package_dir`.
pub fn context_infra_tmp_debug_log_path(package_dir: &str) -> (r: Option<String>)
    ensures
        text_view(r) == under_parent(
            package_dir@,
            2,
            seq!["context-infrastructure"@, "tmp"@, DEBUG_LOG_FILE_NAME@],
        ),
{
    proof {
        reveal_with_fuel(under_parent, 3);
        reveal_with_fuel(joined_all, 4);
    }
    match parent_of(package_dir) {
        Some(p) => match parent_of(p.as_str()) {
            Some(root) => {
                let infra = join_path(root.as_str(), "context-infrastructure");
                let tmp = join_path(infra.as_str(), "tmp");
                proof {
                    let names = seq!["context-infrastructure"@, "tmp"@, DEBUG_LOG_FILE_NAME@];
                    assert(names.drop_first() == seq!["tmp"@, DEBUG_LOG_FILE_NAME@]);
                    assert(names.drop_first().drop_first() == seq![DEBUG_LOG_FILE_NAME@]);
                }
                Some(join_path(tmp.as_str(), DEBUG_LOG_FILE_NAME))
            },
            None => None,
        },
        None => None,
    }
}

} // verus!
