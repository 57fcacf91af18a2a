//! The directory layout of a workspace and the rule for its root folder.
use vstd::prelude::*;
use crate::error::{message, AppError};
use crate::text::{
    chars_of, copy_range, has_prefix, replace_chars, replace_char, string_from_chars, trim_class,
    trim_end_class, trim_end_index, trim_start_index, trim_ws, is_ascii_alpha, CharClass,
};
use crate::winpath::{join, join_spec};

verus! {

/// The folders and files of a workspace, all below one root folder.
pub struct AppPaths {
    root: String,
}

impl View for AppPaths {
    type V = Seq<char>;

    /// The root folder.
    closed spec fn view(&self) -> Seq<char> {
        self.root@
    }
}

impl Clone for AppPaths {
    fn clone(&self) -> (r: Self)
        ensures
            r == *self,
    {
        AppPaths { root: self.root.clone() }
    }
}

impl AppPaths {
    pub fn new(root: &str) -> (p: AppPaths)
        ensures
            p@ == root@,
    {
        AppPaths { root: root.to_owned() }
    }

    pub fn root(&self) -> (r: &str)
        ensures
            r@ == self@,
    {
        self.root.as_str()
    }

    /// `<root>\disks`: where base disks live.
    pub fn base_dir(&self) -> (r: String)
        ensures
            r@ == join_spec(self@, "disks"@),
    {
        join(self.root.as_str(), "disks")
    }

    /// `<root>\disks`: differencing disks sit beside their bases, since the
    /// boot loader looks for the parent in the same folder.
    pub fn diff_dir(&self) -> (r: String)
        ensures
            r@ == join_spec(self@, "disks"@),
    {
        join(self.root.as_str(), "disks")
    }

    /// `<root>\meta`.
    pub fn meta_dir(&self) -> (r: String)
        ensures
            r@ == join_spec(self@, "meta"@),
    {
        join(self.root.as_str(), "meta")
    }

    /// `<root>\meta\tmp`.
    pub fn tmp_dir(&self) -> (r: String)
        ensures
            r@ == join_spec(join_spec(self@, "meta"@), "tmp"@),
    {
        let m = self.meta_dir();
        join(m.as_str(), "tmp")
    }

    /// `<root>\meta\locales`.
    pub fn locales_dir(&self) -> (r: String)
        ensures
            r@ == join_spec(join_spec(self@, "meta"@), "locales"@),
    {
        let m = self.meta_dir();
        join(m.as_str(), "locales")
    }

    /// `<root>\meta\mnt`.
    pub fn mount_root(&self) -> (r: String)
        ensures
            r@ == join_spec(join_spec(self@, "meta"@), "mnt"@),
    {
        let m = self.meta_dir();
        join(m.as_str(), "mnt")
    }

    /// `<root>\vms`.
    pub fn vms_dir(&self) -> (r: String)
        ensures
            r@ == join_spec(self@, "vms"@),
    {
        join(self.root.as_str(), "vms")
    }

    /// `<root>\meta\state.db`.
    pub fn state_db_path(&self) -> (r: String)
        ensures
            r@ == join_spec(join_spec(self@, "meta"@), "state.db"@),
    {
        let m = self.meta_dir();
        join(m.as_str(), "state.db")
    }

    /// `<root>\meta\ops.log`.
    pub fn ops_log_path(&self) -> (r: String)
        ensures
            r@ == join_spec(join_spec(self@, "meta"@), "ops.log"@),
    {
        let m = self.meta_dir();
        join(m.as_str(), "ops.log")
    }

    /// The folders that must exist in a workspace, in the order in which
    /// they are created: root, base, differencing, meta, tmp, locales, mount
    /// root and virtual machines.
    pub fn layout_dirs(&self) -> (r: Vec<String>)
        ensures
            r.len() == 8,
            r[0]@ == self@,
            r[1]@ == join_spec(self@, "disks"@),
            r[2]@ == join_spec(self@, "disks"@),
            r[3]@ == join_spec(self@, "meta"@),
            r[4]@ == join_spec(join_spec(self@, "meta"@), "tmp"@),
            r[5]@ == join_spec(join_spec(self@, "meta"@), "locales"@),
            r[6]@ == join_spec(join_spec(self@, "meta"@), "mnt"@),
            r[7]@ == join_spec(self@, "vms"@),
    {
        let mut r: Vec<String> = Vec::new();
        r.push(self.root.clone());
        r.push(self.base_dir());
        r.push(self.diff_dir());
        r.push(self.meta_dir());
        r.push(self.tmp_dir());
        r.push(self.locales_dir());
        r.push(self.mount_root());
        r.push(self.vms_dir());
        r
    }
}

/// A workspace path as the root check sees it: trimmed, `/` turned into
/// `\`, a leading `\\?\` removed, and trailing `\` removed.
pub open spec fn normalize_workspace_spec(p: Seq<char>) -> Seq<char> {
    let r = replace_char(trim_ws(p), '/', '\\');
    let s = if has_prefix(r, seq!['\\', '\\', '?', '\\']) {
        r.skip(4)
    } else {
        r
    };
    trim_end_class(s, CharClass::Exactly('\\'))
}

/// `E:` or `E:\` for an ASCII letter `E`.
pub open spec fn is_drive_root_spec(p: Seq<char>) -> bool {
    ||| p.len() == 2 && is_ascii_alpha(p[0]) && p[1] == ':'
    ||| p.len() == 3 && is_ascii_alpha(p[0]) && p[1] == ':' && p[2] == '\\'
}

/// The root folder is refused when it is blank or a drive root.
pub open spec fn root_is_empty(root: Seq<char>) -> bool {
    trim_ws(root).len() == 0
}

pub open spec fn root_is_drive_root(root: Seq<char>) -> bool {
    is_drive_root_spec(normalize_workspace_spec(trim_ws(root)))
}

pub fn normalize_workspace_path(path: &str) -> (r: String)
    ensures
        r@ == normalize_workspace_spec(path@),
{
    let v = chars_of(path);
    let a = trim_start_index(&v, 0, v.len(), CharClass::Whitespace);
    let b = trim_end_index(&v, a, v.len(), CharClass::Whitespace);
    proof {
        assert(v@.subrange(0, v.len() as int) =~= v@);
    }
    let t = copy_range(&v, a, b);
    let r = replace_chars(t.as_slice(), '/', '\\');
    let start: usize = if r.len() >= 4 && r[0] == '\\' && r[1] == '\\' && r[2] == '?' && r[3]
        == '\\' {
        4
    } else {
        0
    };
    proof {
        let pre = seq!['\\', '\\', '?', '\\'];
        if r.len() >= 4 && r@[0] == '\\' && r@[1] == '\\' && r@[2] == '?' && r@[3] == '\\' {
            assert(r@.subrange(0, 4) =~= pre);
            assert(r@.skip(4) =~= r@.subrange(4, r.len() as int));
        } else {
            if r.len() >= 4 {
                assert(r@.subrange(0, 4)[0] == r@[0]);
                assert(r@.subrange(0, 4)[1] == r@[1]);
                assert(r@.subrange(0, 4)[2] == r@[2]);
                assert(r@.subrange(0, 4)[3] == r@[3]);
                assert(r@.subrange(0, 4) != pre);
            }
            assert(r@.subrange(0, r.len() as int) =~= r@);
        }
    }
    let e = trim_end_index(&r, start, r.len(), CharClass::Exactly('\\'));
    let out = copy_range(&r, start, e);
    string_from_chars(out.as_slice())
}

pub fn is_windows_drive_root(path: &str) -> (b: bool)
    ensures
        b == is_drive_root_spec(path@),
{
    let v = chars_of(path);
    let alpha = v.len() >= 1 && (('a' <= v[0] && v[0] <= 'z') || ('A' <= v[0] && v[0] <= 'Z'));
    (v.len() == 2 && alpha && v[1] == ':') || (v.len() == 3 && alpha && v[1] == ':' && v[2]
        == '\\')
}

/// Refuses a blank workspace root and a Windows drive root such as `E:\`.
pub fn validate_workspace_root(root: &str) -> (r: Result<(), AppError>)
    ensures
        root_is_empty(root@) ==> (r matches Err(e) && e.is_message(
            "workspace root path is empty"@,
        )),
        !root_is_empty(root@) && root_is_drive_root(root@) ==> (r matches Err(e) && e.is_message(
            "workspace root cannot be a drive root (for example E:\\); choose a normal folder such as E:\\test-vhdx"@,
        )),
        r is Ok <==> !root_is_empty(root@) && !root_is_drive_root(root@),
{
    let v = chars_of(root);
    let a = trim_start_index(&v, 0, v.len(), CharClass::Whitespace);
    let b = trim_end_index(&v, a, v.len(), CharClass::Whitespace);
    proof {
        assert(v@.subrange(0, v.len() as int) =~= v@);
    }
    if a == b {
        return Err(message("workspace root path is empty"));
    }
    let t = copy_range(&v, a, b);
    let trimmed = string_from_chars(t.as_slice());
    let normalized = normalize_workspace_path(trimmed.as_str());
    if is_windows_drive_root(normalized.as_str()) {
        return Err(
            message(
                "workspace root cannot be a drive root (for example E:\\); choose a normal folder such as E:\\test-vhdx",
            ),
        );
    }
    Ok(())
}

} // verus!
