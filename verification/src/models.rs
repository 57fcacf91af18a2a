//! The records of a workspace: disk nodes with their state, and the images
//! inside a WIM file.
use vstd::prelude::*;
use crate::text::{chars_of, chars_equal, opt_view};

verus! {

/// The state of a disk node as the last scan found it.
#[derive(PartialEq, Eq, Structural, Clone, Copy, Debug)]
pub enum NodeStatus {
    Normal,
    MissingFile,
    MissingParent,
    MissingBcd,
    Mounted,
    Error,
}

/// The text under which a status is stored: the variant's name.
pub open spec fn status_text_spec(s: NodeStatus) -> Seq<char> {
    match s {
        NodeStatus::Normal => "Normal"@,
        NodeStatus::MissingFile => "MissingFile"@,
        NodeStatus::MissingParent => "MissingParent"@,
        NodeStatus::MissingBcd => "MissingBcd"@,
        NodeStatus::Mounted => "Mounted"@,
        NodeStatus::Error => "Error"@,
    }
}

/// The status that a stored text stands for; anything unknown reads as
/// `Normal`.
pub open spec fn status_from_text_spec(t: Seq<char>) -> NodeStatus {
    if t == "MissingFile"@ {
        NodeStatus::MissingFile
    } else if t == "MissingParent"@ {
        NodeStatus::MissingParent
    } else if t == "MissingBcd"@ {
        NodeStatus::MissingBcd
    } else if t == "Mounted"@ {
        NodeStatus::Mounted
    } else if t == "Error"@ {
        NodeStatus::Error
    } else {
        NodeStatus::Normal
    }
}

impl NodeStatus {
    /// The text under which the status is stored.
    pub fn as_text(&self) -> (r: String)
        ensures
            r@ == status_text_spec(*self),
    {
        match self {
            NodeStatus::Normal => "Normal".to_owned(),
            NodeStatus::MissingFile => "MissingFile".to_owned(),
            NodeStatus::MissingParent => "MissingParent".to_owned(),
            NodeStatus::MissingBcd => "MissingBcd".to_owned(),
            NodeStatus::Mounted => "Mounted".to_owned(),
            NodeStatus::Error => "Error".to_owned(),
        }
    }

    /// The status that a stored text stands for.
    pub fn from_text(t: &str) -> (s: NodeStatus)
        ensures
            s == status_from_text_spec(t@),
    {
        let v = chars_of(t);
        let a = chars_of("MissingFile");
        let b = chars_of("MissingParent");
        let c = chars_of("MissingBcd");
        let d = chars_of("Mounted");
        let e = chars_of("Error");
        if chars_equal(v.as_slice(), a.as_slice()) {
            NodeStatus::MissingFile
        } else if chars_equal(v.as_slice(), b.as_slice()) {
            NodeStatus::MissingParent
        } else if chars_equal(v.as_slice(), c.as_slice()) {
            NodeStatus::MissingBcd
        } else if chars_equal(v.as_slice(), d.as_slice()) {
            NodeStatus::Mounted
        } else if chars_equal(v.as_slice(), e.as_slice()) {
            NodeStatus::Error
        } else {
            NodeStatus::Normal
        }
    }
}

/// A status read back from the text it was stored under is the status that
/// was stored.
pub proof fn law_status_text_round_trip(s: NodeStatus)
    ensures
        status_from_text_spec(status_text_spec(s)) == s,
{
    reveal_strlit("Normal");
    reveal_strlit("MissingFile");
    reveal_strlit("MissingParent");
    reveal_strlit("MissingBcd");
    reveal_strlit("Mounted");
    reveal_strlit("Error");
    assert("Normal"@.len() == 6);
    assert("MissingFile"@.len() == 11);
    assert("MissingParent"@.len() == 13);
    assert("MissingBcd"@.len() == 10);
    assert("Mounted"@.len() == 7);
    assert("Error"@.len() == 5);
}

/// A virtual disk of the workspace.
pub struct Node {
    pub id: String,
    pub parent_id: Option<String>,
    pub name: String,
    pub path: String,
    pub bcd_guid: Option<String>,
    pub desc: Option<String>,
    /// Creation time in RFC 3339.
    pub created_at: String,
    pub status: NodeStatus,
    pub boot_files_ready: bool,
}

/// A node as text: id, parent id, name, path, BCD GUID, description,
/// creation time, status, boot files ready.
pub type NodeModel = (
    Seq<char>,
    Option<Seq<char>>,
    Seq<char>,
    Seq<char>,
    Option<Seq<char>>,
    Option<Seq<char>>,
    Seq<char>,
    NodeStatus,
    bool,
);

impl View for Node {
    type V = NodeModel;

    open spec fn view(&self) -> NodeModel {
        (
            self.id@,
            opt_view(self.parent_id),
            self.name@,
            self.path@,
            opt_view(self.bcd_guid),
            opt_view(self.desc),
            self.created_at@,
            self.status,
            self.boot_files_ready,
        )
    }
}

pub fn clone_opt_string(o: &Option<String>) -> (r: Option<String>)
    ensures
        r == *o,
{
    match o {
        Some(s) => Some(s.clone()),
        None => None,
    }
}

impl Clone for Node {
    fn clone(&self) -> (r: Self)
        ensures
            r == *self,
    {
        Node {
            id: self.id.clone(),
            parent_id: clone_opt_string(&self.parent_id),
            name: self.name.clone(),
            path: self.path.clone(),
            bcd_guid: clone_opt_string(&self.bcd_guid),
            desc: clone_opt_string(&self.desc),
            created_at: self.created_at.clone(),
            status: self.status,
            boot_files_ready: self.boot_files_ready,
        }
    }
}

/// The settings stored with a workspace.
pub struct AppSettings {
    pub root_path: String,
    pub locale: String,
    pub seq_counter: i64,
    pub last_boot_guid: Option<String>,
}

/// One image inside a WIM or ESD file.
pub struct WimImageInfo {
    pub index: u32,
    pub name: String,
    pub description: Option<String>,
    pub size: Option<String>,
}

} // verus!
