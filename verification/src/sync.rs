//! The synchronization plan: every decision of the create-or-merge
//! operation, from plain inputs to plain outputs.
//!
//! The caller probes the filesystem, asks this module what to do,
//! performs the copies and writes it is told to perform, and hands
//! each result back.  Every path, every mode and every merged text is
//! computed and specified here; the caller adds no decision of its
//! own.

use vstd::prelude::*;
use vstd::string::*;
use crate::appname;
use crate::descriptor;

verus! {

/// Why a synchronization call failed.
#[derive(Debug)]
pub enum SyncError {
    /// The source path does not exist on the filesystem.
    SourceNotFound,
    /// Directory creation, the copy, or permission setting on the
    /// executable failed; the operation stops before the descriptor.
    StagingFailed { path: String, cause: String },
    /// No applications directory could be resolved.
    ApplicationsDirUnavailable,
    /// The merged descriptor could not be written.
    DescriptorWriteFailed { path: String, cause: String },
    /// No home directory could be resolved.
    HomeDirectoryUnavailable,
}

/// What a successful synchronization produced.
pub struct SyncOutcome {
    /// Path of the installed executable copy.
    pub exec_target: String,
    /// Path of the descriptor file that was written.
    pub desktop_file_path: String,
    /// Whether a descriptor already existed and was merged.
    pub was_update: bool,
    /// Whether icon staging failed and a fallback icon value was used.
    pub icon_degraded: bool,
}

/// `dir` and `name` joined with a single `/`.
pub open spec fn join_path_spec(dir: Seq<char>, name: Seq<char>) -> Seq<char> {
    dir + seq!['/'] + name
}

/// Join a directory and a file name with `/`.
pub fn join_path(dir: &str, name: &str) -> (r: String)
    ensures
        r@ == join_path_spec(dir@, name@),
{
    let mut r = dir.to_owned();
    r.append("/");
    r.append(name);
    proof {
        reveal_strlit("/");
        assert(r@ =~= join_path_spec(dir@, name@));
    }
    r
}

/// The part of `p` after its last `/`; all of `p` when it has none.
pub open spec fn base_name_spec(p: Seq<char>) -> Seq<char>
    decreases p.len(),
{
    let f = descriptor::find_char(p, '/');
    if 0 <= f && f < p.len() {
        base_name_spec(p.subrange(f + 1, p.len() as int))
    } else {
        p
    }
}

/// A scan that found the last `/` just before `i` pins
/// `base_name_spec` down.
proof fn lemma_base_name_scan(p: Seq<char>, i: int)
    requires
        0 <= i <= p.len(),
        forall|j: int| i <= j < p.len() ==> p[j] != '/',
        i > 0 ==> p[i - 1] == '/',
    ensures
        base_name_spec(p) == p.subrange(i, p.len() as int),
    decreases p.len(),
{
    descriptor::lemma_find_char_props(p, '/');
    let f = descriptor::find_char(p, '/');
    if i == 0 {
        assert(f < 0);
        assert(p.subrange(0, p.len() as int) =~= p);
    } else {
        assert(0 <= f < p.len());
        assert(f <= i - 1);
        let t = p.subrange(f + 1, p.len() as int);
        assert forall|j: int| i - f - 1 <= j < t.len() implies t[j] != '/' by {
            assert(t[j] == p[j + f + 1]);
        }
        if i - f - 1 > 0 {
            assert(t[i - f - 2] == p[i - 1]);
        }
        lemma_base_name_scan(t, i - f - 1);
        assert(t.subrange(i - f - 1, t.len() as int) =~= p.subrange(i, p.len() as int));
    }
}

/// The file name of a path: what stands after the last `/`.
pub fn base_name(path: &str) -> (r: String)
    ensures
        r@ == base_name_spec(path@),
{
    let len = path.unicode_len();
    let mut i: usize = len;
    loop
        invariant
            i <= len == path@.len(),
            forall|j: int| i <= j < len ==> path@[j] != '/',
        ensures
            i <= len,
            forall|j: int| i <= j < len ==> path@[j] != '/',
            i > 0 ==> path@[i - 1] == '/',
        decreases i,
    {
        if i > 0 && path.get_char(i - 1) != '/' {
            i = i - 1;
        } else {
            break;
        }
    }
    proof {
        lemma_base_name_scan(path@, i as int);
    }
    path.substring_char(i, len).to_owned()
}

/// The user-local executable directory under `home`.
pub open spec fn bin_dir_spec(home: Seq<char>) -> Seq<char> {
    home + "/.local/bin"@
}

/// The path at which the executable copy is installed.
pub open spec fn exec_target_spec(home: Seq<char>, name: Seq<char>) -> Seq<char> {
    join_path_spec(bin_dir_spec(home), name)
}

/// The application name a source path yields.
pub open spec fn app_name_of_path(source_path: Seq<char>) -> Seq<char> {
    appname::clean_app_name_spec(base_name_spec(source_path))
}

/// The permission bits set on the installed executable.
pub open spec fn target_mode_spec() -> u32 {
    0o755u32
}

/// Any of the owner, group or other executable bits.
pub open spec fn exec_bits_set(mode: u32) -> bool {
    mode & 0o111 != 0
}

/// Whether a permission mode carries an executable bit, as the source
/// file is tested before staging.
pub fn mode_is_executable(mode: u32) -> (r: bool)
    ensures
        r == exec_bits_set(mode),
{
    mode & 0o111 != 0
}

/// The mode written to the installed executable always carries the
/// executable bits for owner, group and other.
pub proof fn lemma_target_mode_is_executable()
    ensures
        exec_bits_set(target_mode_spec()),
        target_mode_spec() == 0o755u32,
{
    assert(0o755u32 & 0o111u32 != 0u32) by (bit_vector);
}

/// The filesystem steps that stage the executable copy.
pub struct StagingPlan {
    /// The derived application name.
    pub appname: String,
    /// The directory that must exist before the copy.
    pub bin_dir: String,
    /// Where the source bytes are copied to.
    pub exec_target: String,
    /// The permission mode set on the copy.
    pub mode: u32,
}

/// Decide the staging steps.  Fails with `SourceNotFound`, and only
/// with it, exactly when the source does not exist; otherwise the plan
/// holds the derived name, the target directory and path, and the
/// mode to set.
pub fn plan_staging(source_path: &str, source_exists: bool, home_dir: &str) -> (r: Result<
    StagingPlan,
    SyncError,
>)
    ensures
        r is Ok <==> source_exists,
        !source_exists ==> (r matches Err(e) && e is SourceNotFound),
        source_exists ==> (r matches Ok(p) && p.appname@ == app_name_of_path(source_path@)
            && p.bin_dir@ == bin_dir_spec(home_dir@) && p.exec_target@ == exec_target_spec(
            home_dir@,
            app_name_of_path(source_path@),
        ) && p.mode == target_mode_spec()),
{
    if !source_exists {
        return Err(SyncError::SourceNotFound);
    }
    let file_name = base_name(source_path);
    let name = appname::clean_app_name(file_name.as_str());
    let mut bin_dir = home_dir.to_owned();
    bin_dir.append("/.local/bin");
    let exec_target = join_path(bin_dir.as_str(), name.as_str());
    Ok(
        StagingPlan {
            appname: name,
            bin_dir,
            exec_target,
            mode: 0o755,
        },
    )
}

/// The icon step that precedes the descriptor merge.
pub enum IconPlan {
    /// Copy the icon file and use the destination as the new value.
    CopyIcon { source: String, destination: String },
    /// No new icon is staged; the merge keeps the prior value or the
    /// default identifier.
    KeepExisting,
}

/// Decide the icon step: a supplied icon that exists is copied into
/// the icons directory under its own file name; a missing or absent
/// icon leaves the prior value in force.
pub fn plan_icon(icon_path: Option<&str>, icon_exists: bool, icons_dir: &str) -> (r: IconPlan)
    ensures
        match icon_path {
            Some(p) => {
                if icon_exists {
                    (r matches IconPlan::CopyIcon { source, destination } && source@ == p@
                        && destination@ == join_path_spec(icons_dir@, base_name_spec(p@)))
                } else {
                    r is KeepExisting
                }
            },
            None => r is KeepExisting,
        },
{
    match icon_path {
        Some(p) => {
            if icon_exists {
                let file_name = base_name(p);
                let destination = join_path(icons_dir, file_name.as_str());
                IconPlan::CopyIcon { source: p.to_owned(), destination }
            } else {
                IconPlan::KeepExisting
            }
        },
        None => IconPlan::KeepExisting,
    }
}

/// The new `Icon` value once the planned copy was attempted: the
/// destination path on success, the original path (degraded) when the
/// copy or the directory creation failed, nothing when no icon was
/// staged.  The second component reports the degradation.
pub fn resolved_new_icon(plan: &IconPlan, copy_ok: bool) -> (r: Option<(String, bool)>)
    ensures
        match plan {
            IconPlan::CopyIcon { source, destination } => {
                if copy_ok {
                    (r matches Some(p) && p.0@ == destination@ && p.1 == false)
                } else {
                    (r matches Some(p) && p.0@ == source@ && p.1 == true)
                }
            },
            IconPlan::KeepExisting => r is None,
        },
{
    match plan {
        IconPlan::CopyIcon { source, destination } => {
            if copy_ok {
                Some((destination.clone(), false))
            } else {
                Some((source.clone(), true))
            }
        },
        IconPlan::KeepExisting => None,
    }
}

/// The descriptor path for a derived application name.
pub fn desktop_file_path_for(applications_dir: &str, name: &str) -> (r: String)
    ensures
        r@ == join_path_spec(applications_dir@, name@ + ".desktop"@),
{
    let mut file_name = name.to_owned();
    file_name.append(".desktop");
    join_path(applications_dir, file_name.as_str())
}

/// The applications directory: `applications` under the data
/// directory when one is resolved, else the default under `home`.
pub fn default_applications_dir(data_dir: Option<&str>, home_dir: &str) -> (r: String)
    ensures
        match data_dir {
            Some(d) => r@ == join_path_spec(d@, "applications"@),
            None => r@ == join_path_spec(home_dir@, ".local/share/applications"@),
        },
{
    match data_dir {
        Some(d) => join_path(d, "applications"),
        None => join_path(home_dir, ".local/share/applications"),
    }
}

/// The user-local icons directory under `home`.
pub fn default_icons_dir(home_dir: &str) -> (r: String)
    ensures
        r@ == join_path_spec(home_dir@, ".local/share/icons"@),
{
    join_path(home_dir, ".local/share/icons")
}

/// Whether this binary counts as installed system-wide: it runs from
/// the target path, or a file already stands there.
pub fn is_globally_installed(current_exe_path: &str, target_path: &str, target_exists: bool) -> (r:
    bool)
    ensures
        r == (current_exe_path@ == target_path@ || target_exists),
{
    descriptor::str_eq_chars(current_exe_path, target_path) || target_exists
}

} // verus!
