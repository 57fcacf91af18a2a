//! The decisions of a workspace scan. The disks found on disk are matched
//! with the recorded nodes by their normalised path: recorded nodes whose
//! file moved are relinked, new disks get ids and records, parent links and
//! BCD entries are brought up to date, and every node gets a status.
use vstd::prelude::*;
use crate::models::{Node, NodeModel, NodeStatus};
use crate::text::{ascii_lower, chars_equal, chars_of, lower_chars, opt_view};
use crate::winpath::{file_name_chars, file_name_spec};
use crate::workspace::{
    derive_name_from_path, derive_name_spec, new_id, normalize_path, normalize_path_spec,
    path_within_root, within_root_spec,
};

verus! {

/// Keyed entries as text.
pub open spec fn pairs_view<T: View>(s: Seq<(String, T)>) -> Seq<(Seq<char>, T::V)> {
    s.map_values(|e: (String, T)| (e.0@, e.1@))
}

/// Position of the first entry with key `k`.
pub open spec fn key_pos<X>(s: Seq<(Seq<char>, X)>, k: Seq<char>) -> Option<int>
    decreases s.len(),
{
    if s.len() == 0 {
        None
    } else {
        match key_pos(s.drop_last(), k) {
            Some(p) => Some(p),
            None => if s.last().0 == k {
                Some(s.len() - 1)
            } else {
                None
            },
        }
    }
}

pub proof fn lemma_key_pos_range<X>(s: Seq<(Seq<char>, X)>, k: Seq<char>)
    ensures
        key_pos(s, k) matches Some(p) ==> 0 <= p < s.len() && s[p].0 == k && forall|t: int|
            0 <= t < p ==> (#[trigger] s[t]).0 != k,
        key_pos(s, k) is None ==> forall|t: int| 0 <= t < s.len() ==> (#[trigger] s[t]).0 != k,
    decreases s.len(),
{
    if s.len() > 0 {
        lemma_key_pos_range(s.drop_last(), k);
        assert forall|t: int| 0 <= t < s.len() - 1 implies #[trigger] s[t] == s.drop_last()[t] by {}
    }
}

proof fn lemma_key_pos_prefix<X>(s: Seq<(Seq<char>, X)>, k: Seq<char>, n: int)
    requires
        0 <= n <= s.len(),
        key_pos(s.take(n), k) is Some,
    ensures
        key_pos(s, k) == key_pos(s.take(n), k),
    decreases s.len() - n,
{
    if n < s.len() {
        assert(s.take(n + 1).drop_last() =~= s.take(n));
        lemma_key_pos_prefix(s, k, n + 1);
    } else {
        assert(s.take(n) =~= s);
    }
}

/// Position of the first entry with the key.
pub fn find_key<T: View>(v: &Vec<(String, T)>, k: &String) -> (r: Option<usize>)
    ensures
        match r {
            Some(i) => i < v.len() && key_pos(pairs_view(v@), k@) == Some(i as int),
            None => key_pos(pairs_view(v@), k@) == None::<int>,
        },
{
    let ghost pv = pairs_view(v@);
    let mut i: usize = 0;
    while i < v.len()
        invariant
            i <= v.len(),
            pv == pairs_view(v@),
            key_pos(pv.take(i as int), k@) == None::<int>,
        decreases v.len() - i,
    {
        proof {
            assert(pv.take(i + 1).drop_last() =~= pv.take(i as int));
            assert(pv.take(i + 1).last() == pv[i as int]);
        }
        if v[i].0 == *k {
            proof {
                assert(key_pos(pv.take(i + 1), k@) == Some(i as int));
                lemma_key_pos_prefix(pv, k@, i + 1);
            }
            return Some(i);
        }
        i = i + 1;
    }
    proof {
        assert(pv.take(v.len() as int) =~= pv);
    }
    None
}

/// The recorded nodes keyed by normalised path; of nodes sharing a key the
/// later one is kept, in the place of the first.
pub open spec fn index_spec(nodes: Seq<NodeModel>, devs: Seq<Option<String>>) -> Seq<
    (Seq<char>, NodeModel),
>
    decreases nodes.len(),
{
    if nodes.len() == 0 {
        seq![]
    } else {
        let idx = index_spec(nodes.drop_last(), devs);
        let n = nodes.last();
        let k = normalize_path_spec(n.3, devs);
        match key_pos(idx, k) {
            Some(p) => idx.update(p, (k, n)),
            None => idx.push((k, n)),
        }
    }
}

pub open spec fn nodes_view(v: Seq<Node>) -> Seq<NodeModel> {
    v.map_values(|n: Node| n@)
}

/// Indexes recorded nodes by their normalised path.
pub fn index_nodes(nodes: &Vec<Node>, dos_devices: &Vec<Option<String>>) -> (r: Vec<(String, Node)>)
    ensures
        pairs_view(r@) == index_spec(nodes_view(nodes@), dos_devices@),
{
    let ghost nv = nodes_view(nodes@);
    let mut r: Vec<(String, Node)> = Vec::new();
    let mut i: usize = 0;
    while i < nodes.len()
        invariant
            i <= nodes.len(),
            nv == nodes_view(nodes@),
            pairs_view(r@) == index_spec(nv.take(i as int), dos_devices@),
        decreases nodes.len() - i,
    {
        proof {
            assert(nv.take(i + 1).drop_last() =~= nv.take(i as int));
            assert(nv.take(i + 1).last() == nodes@[i as int]@);
        }
        let k = normalize_path(nodes[i].path.as_str(), dos_devices);
        let ghost before = pairs_view(r@);
        match find_key(&r, &k) {
            Some(p) => {
                r[p] = (k, nodes[i].clone());
                proof {
                    assert(pairs_view(r@) =~= before.update(p as int, (k@, nodes@[i as int]@)));
                }
            },
            None => {
                r.push((k, nodes[i].clone()));
                proof {
                    assert(pairs_view(r@) =~= before.push((k@, nodes@[i as int]@)));
                }
            },
        }
        i = i + 1;
    }
    proof {
        assert(nv.take(nodes.len() as int) =~= nv);
    }
    r
}

/// Some found disk has no record yet, or its record has no BCD GUID: only
/// then is the BCD store enumerated.
pub open spec fn needs_bcd_lookup_spec(paths: Seq<Seq<char>>, idx: Seq<(Seq<char>, NodeModel)>, devs: Seq<Option<String>>) -> bool {
    exists|i: int|
        0 <= i < paths.len() && #[trigger] lacks_bcd(idx, normalize_path_spec(paths[i], devs))
}

pub open spec fn lacks_bcd(idx: Seq<(Seq<char>, NodeModel)>, k: Seq<char>) -> bool {
    match key_pos(idx, k) {
        Some(p) => idx[p].1.4 is None,
        None => true,
    }
}

pub fn needs_bcd_lookup(
    vhd_paths: &Vec<String>,
    idx: &Vec<(String, Node)>,
    dos_devices: &Vec<Option<String>>,
) -> (b: bool)
    ensures
        b == needs_bcd_lookup_spec(
            vhd_paths@.map_values(|s: String| s@),
            pairs_view(idx@),
            dos_devices@,
        ),
{
    let ghost pv = vhd_paths@.map_values(|s: String| s@);
    let mut i: usize = 0;
    while i < vhd_paths.len()
        invariant
            i <= vhd_paths.len(),
            pv == vhd_paths@.map_values(|s: String| s@),
            forall|t: int|
                0 <= t < i ==> !#[trigger] lacks_bcd(
                    pairs_view(idx@),
                    normalize_path_spec(pv[t], dos_devices@),
                ),
        decreases vhd_paths.len() - i,
    {
        let k = normalize_path(vhd_paths[i].as_str(), dos_devices);
        let lacks = match find_key(idx, &k) {
            Some(p) => idx[p].1.bcd_guid.is_none(),
            None => true,
        };
        if lacks {
            proof {
                assert(lacks_bcd(pairs_view(idx@), normalize_path_spec(pv[i as int], dos_devices@)));
            }
            return true;
        }
        i = i + 1;
    }
    false
}

/// What a scan learned of one disk file.
pub struct ScannedVhd {
    pub path: String,
    pub normalized: String,
    pub parent_normalized: Option<String>,
    /// The parent locator could be read.
    pub detail_ok: bool,
    pub created_at: String,
    pub bcd_guid: Option<String>,
    pub attached: bool,
}

pub type ScannedModel = (
    Seq<char>,
    Seq<char>,
    Option<Seq<char>>,
    bool,
    Seq<char>,
    Option<Seq<char>>,
    bool,
);

impl View for ScannedVhd {
    type V = ScannedModel;

    open spec fn view(&self) -> ScannedModel {
        (
            self.path@,
            self.normalized@,
            opt_view(self.parent_normalized),
            self.detail_ok,
            self.created_at@,
            opt_view(self.bcd_guid),
            self.attached,
        )
    }
}

/// The record of a found disk: its key, its parent's key when the locator
/// could be read and names one, and its BCD GUID, taken from its record if
/// that has one, else from the BCD enumeration.
pub open spec fn scanned_spec(
    path: Seq<char>,
    locator_read: bool,
    parent: Option<Seq<char>>,
    created_at: Seq<char>,
    attached: bool,
    enum_guid: Option<Seq<char>>,
    idx: Seq<(Seq<char>, NodeModel)>,
    devs: Seq<Option<String>>,
) -> ScannedModel {
    let k = normalize_path_spec(path, devs);
    let pn = if locator_read {
        match parent {
            Some(p) => Some(normalize_path_spec(p, devs)),
            None => None,
        }
    } else {
        None
    };
    let guid = match key_pos(idx, k) {
        Some(i) => match idx[i].1.4 {
            Some(g) => Some(g),
            None => enum_guid,
        },
        None => enum_guid,
    };
    (path, k, pn, locator_read, created_at, guid, attached)
}

pub fn scanned_vhd(
    path: &String,
    locator_read: bool,
    parent: &Option<String>,
    created_at: &String,
    attached: bool,
    enum_guid: &Option<String>,
    idx: &Vec<(String, Node)>,
    dos_devices: &Vec<Option<String>>,
) -> (r: ScannedVhd)
    ensures
        r@ == scanned_spec(
            path@,
            locator_read,
            opt_view(*parent),
            created_at@,
            attached,
            opt_view(*enum_guid),
            pairs_view(idx@),
            dos_devices@,
        ),
{
    let k = normalize_path(path.as_str(), dos_devices);
    let pn = if locator_read {
        match parent {
            Some(p) => Some(normalize_path(p.as_str(), dos_devices)),
            None => None,
        }
    } else {
        None
    };
    let guid = match find_key(idx, &k) {
        Some(i) => match &idx[i].1.bcd_guid {
            Some(g) => Some(g.clone()),
            None => crate::models::clone_opt_string(enum_guid),
        },
        None => crate::models::clone_opt_string(enum_guid),
    };
    ScannedVhd {
        path: path.clone(),
        normalized: k,
        parent_normalized: pn,
        detail_ok: locator_read,
        created_at: created_at.clone(),
        bcd_guid: guid,
        attached,
    }
}

pub open spec fn scanned_view(v: Seq<ScannedVhd>) -> Seq<ScannedModel> {
    v.map_values(|s: ScannedVhd| s@)
}

/// Position of the last found disk with key `k`.
pub open spec fn last_scanned(s: Seq<ScannedModel>, k: Seq<char>) -> Option<int>
    decreases s.len(),
{
    if s.len() == 0 {
        None
    } else if s.last().1 == k {
        Some(s.len() - 1)
    } else {
        last_scanned(s.drop_last(), k)
    }
}

/// Id of the last node whose normalised path is `k`.
pub open spec fn last_id_by_path(nodes: Seq<NodeModel>, k: Seq<char>, devs: Seq<Option<String>>) -> Option<Seq<char>>
    decreases nodes.len(),
{
    if nodes.len() == 0 {
        None
    } else if normalize_path_spec(nodes.last().3, devs) == k {
        Some(nodes.last().0)
    } else {
        last_id_by_path(nodes.drop_last(), k, devs)
    }
}

/// The status of a node after a scan: its file is missing; or the scan
/// could not read its locator; or it is attached; or its parent is not the
/// node recorded for the parent the locator names (or it has a parent and
/// the locator names none); else normal. A node whose file was not among
/// those scanned stays normal.
pub open spec fn status_spec(
    n: NodeModel,
    file_present: bool,
    scanned: Seq<ScannedModel>,
    latest: Seq<NodeModel>,
    devs: Seq<Option<String>>,
) -> NodeStatus {
    if !file_present {
        NodeStatus::MissingFile
    } else {
        match last_scanned(scanned, normalize_path_spec(n.3, devs)) {
            None => NodeStatus::Normal,
            Some(j) => {
                let s = scanned[j];
                if !s.3 {
                    NodeStatus::Error
                } else if s.6 {
                    NodeStatus::Mounted
                } else {
                    match s.2 {
                        Some(pn) => match last_id_by_path(latest, pn, devs) {
                            Some(pid) => if n.1 == Some(pid) {
                                NodeStatus::Normal
                            } else {
                                NodeStatus::MissingParent
                            },
                            None => NodeStatus::MissingParent,
                        },
                        None => if n.1 is Some {
                            NodeStatus::MissingParent
                        } else {
                            NodeStatus::Normal
                        },
                    }
                }
            },
        }
    }
}

fn find_last_scanned(scanned: &Vec<ScannedVhd>, k: &String) -> (r: Option<usize>)
    ensures
        match r {
            Some(j) => j < scanned.len() && last_scanned(scanned_view(scanned@), k@) == Some(
                j as int,
            ),
            None => last_scanned(scanned_view(scanned@), k@) == None::<int>,
        },
{
    let ghost sv = scanned_view(scanned@);
    let mut j = scanned.len();
    proof {
        assert(sv.take(scanned.len() as int) =~= sv);
    }
    while j > 0
        invariant
            j <= scanned.len(),
            sv == scanned_view(scanned@),
            last_scanned(sv, k@) == last_scanned(sv.take(j as int), k@),
        decreases j,
    {
        proof {
            assert(sv.take(j as int).drop_last() =~= sv.take(j - 1));
            assert(sv.take(j as int).last() == scanned@[j - 1]@);
        }
        if scanned[j - 1].normalized == *k {
            return Some(j - 1);
        }
        j = j - 1;
    }
    None
}

fn find_last_id_by_path(nodes: &Vec<Node>, k: &String, dos_devices: &Vec<Option<String>>) -> (r: Option<String>)
    ensures
        opt_view(r) == last_id_by_path(nodes_view(nodes@), k@, dos_devices@),
{
    let ghost nv = nodes_view(nodes@);
    let mut j = nodes.len();
    proof {
        assert(nv.take(nodes.len() as int) =~= nv);
    }
    while j > 0
        invariant
            j <= nodes.len(),
            nv == nodes_view(nodes@),
            last_id_by_path(nv, k@, dos_devices@) == last_id_by_path(
                nv.take(j as int),
                k@,
                dos_devices@,
            ),
        decreases j,
    {
        proof {
            assert(nv.take(j as int).drop_last() =~= nv.take(j - 1));
            assert(nv.take(j as int).last() == nodes@[j - 1]@);
        }
        let nk = normalize_path(nodes[j - 1].path.as_str(), dos_devices);
        if nk == *k {
            return Some(nodes[j - 1].id.clone());
        }
        j = j - 1;
    }
    None
}

pub fn opt_eq(a: &Option<String>, b: &Option<String>) -> (r: bool)
    ensures
        r == (opt_view(*a) == opt_view(*b)),
{
    match (a, b) {
        (Some(x), Some(y)) => *x == *y,
        (None, None) => true,
        _ => false,
    }
}

/// The status of every node after a scan; `flags[i]` tells whether the
/// file of `latest[i]` exists.
pub fn node_statuses(
    latest: &Vec<Node>,
    flags: &Vec<bool>,
    scanned: &Vec<ScannedVhd>,
    dos_devices: &Vec<Option<String>>,
) -> (r: Vec<NodeStatus>)
    ensures
        r.len() == latest.len(),
        forall|i: int|
            0 <= i < latest.len() ==> r@[i] == status_spec(
                #[trigger] latest@[i]@,
                i < flags.len() && flags@[i],
                scanned_view(scanned@),
                nodes_view(latest@),
                dos_devices@,
            ),
{
    let mut r: Vec<NodeStatus> = Vec::new();
    let mut i: usize = 0;
    while i < latest.len()
        invariant
            i <= latest.len(),
            r.len() == i,
            forall|t: int|
                0 <= t < i ==> r@[t] == status_spec(
                    #[trigger] latest@[t]@,
                    t < flags.len() && flags@[t],
                    scanned_view(scanned@),
                    nodes_view(latest@),
                    dos_devices@,
                ),
        decreases latest.len() - i,
    {
        let n = &latest[i];
        let present = i < flags.len() && flags[i];
        let status = if !present {
            NodeStatus::MissingFile
        } else {
            let k = normalize_path(n.path.as_str(), dos_devices);
            match find_last_scanned(scanned, &k) {
                None => NodeStatus::Normal,
                Some(j) => {
                    let s = &scanned[j];
                    if !s.detail_ok {
                        NodeStatus::Error
                    } else if s.attached {
                        NodeStatus::Mounted
                    } else {
                        match &s.parent_normalized {
                            Some(pn) => match find_last_id_by_path(latest, pn, dos_devices) {
                                Some(pid) => {
                                    let want = Some(pid);
                                    if opt_eq(&n.parent_id, &want) {
                                        NodeStatus::Normal
                                    } else {
                                        NodeStatus::MissingParent
                                    }
                                },
                                None => NodeStatus::MissingParent,
                            },
                            None => if n.parent_id.is_some() {
                                NodeStatus::MissingParent
                            } else {
                                NodeStatus::Normal
                            },
                        }
                    }
                },
            }
        };
        r.push(status);
        i = i + 1;
    }
    r
}

pub open spec fn exists_at(e: Seq<bool>, j: int) -> bool {
    0 <= j < e.len() && e[j]
}

/// A recorded node may be relinked to a found file of the same name
/// (ignoring ASCII case) when its own file is gone or lies outside the
/// workspace.
pub open spec fn is_relink_candidate(
    root: Seq<char>,
    e: (Seq<char>, NodeModel),
    present: bool,
    name: Seq<char>,
    devs: Seq<Option<String>>,
) -> bool {
    &&& (!present || !within_root_spec(root, e.1.3, devs))
    &&& same_file_name(e.1.3, name)
}

/// The path's file name, in ASCII lower case, is `name`.
pub open spec fn same_file_name(path: Seq<char>, name: Seq<char>) -> bool {
    match file_name_spec(path) {
        Some(nm) => ascii_lower(nm) == name,
        None => false,
    }
}

pub open spec fn candidate_count(
    root: Seq<char>,
    idx: Seq<(Seq<char>, NodeModel)>,
    ex: Seq<bool>,
    name: Seq<char>,
    devs: Seq<Option<String>>,
) -> nat
    decreases idx.len(),
{
    if idx.len() == 0 {
        0
    } else {
        candidate_count(root, idx.drop_last(), ex, name, devs) + if is_relink_candidate(
            root,
            idx.last(),
            exists_at(ex, idx.len() - 1),
            name,
            devs,
        ) {
            1nat
        } else {
            0nat
        }
    }
}

pub open spec fn first_candidate(
    root: Seq<char>,
    idx: Seq<(Seq<char>, NodeModel)>,
    ex: Seq<bool>,
    name: Seq<char>,
    devs: Seq<Option<String>>,
) -> Option<int>
    decreases idx.len(),
{
    if idx.len() == 0 {
        None
    } else {
        match first_candidate(root, idx.drop_last(), ex, name, devs) {
            Some(p) => Some(p),
            None => if is_relink_candidate(
                root,
                idx.last(),
                exists_at(ex, idx.len() - 1),
                name,
                devs,
            ) {
                Some(idx.len() - 1)
            } else {
                None
            },
        }
    }
}

/// The recorded node to relink to a found file: the only candidate, if
/// exactly one exists.
pub open spec fn relink_candidate_spec(
    root: Seq<char>,
    idx: Seq<(Seq<char>, NodeModel)>,
    ex: Seq<bool>,
    scanned: Seq<char>,
    devs: Seq<Option<String>>,
) -> Option<int> {
    match file_name_spec(scanned) {
        None => None,
        Some(sn) => {
            let name = ascii_lower(sn);
            if candidate_count(root, idx, ex, name, devs) == 1 {
                first_candidate(root, idx, ex, name, devs)
            } else {
                None
            }
        },
    }
}

proof fn lemma_first_candidate_range(
    root: Seq<char>,
    idx: Seq<(Seq<char>, NodeModel)>,
    ex: Seq<bool>,
    name: Seq<char>,
    devs: Seq<Option<String>>,
)
    ensures
        first_candidate(root, idx, ex, name, devs) matches Some(p) ==> 0 <= p < idx.len(),
    decreases idx.len(),
{
    if idx.len() > 0 {
        lemma_first_candidate_range(root, idx.drop_last(), ex, name, devs);
    }
}

proof fn lemma_count_one(
    root: Seq<char>,
    idx: Seq<(Seq<char>, NodeModel)>,
    ex: Seq<bool>,
    name: Seq<char>,
    devs: Seq<Option<String>>,
    a: int,
)
    requires
        0 <= a < idx.len(),
        is_relink_candidate(root, idx[a], exists_at(ex, a), name, devs),
    ensures
        candidate_count(root, idx, ex, name, devs) >= 1,
        first_candidate(root, idx, ex, name, devs) is Some,
    decreases idx.len(),
{
    if a < idx.len() - 1 {
        assert(idx.drop_last()[a] == idx[a]);
        lemma_count_one(root, idx.drop_last(), ex, name, devs, a);
    }
}

proof fn lemma_count_two(
    root: Seq<char>,
    idx: Seq<(Seq<char>, NodeModel)>,
    ex: Seq<bool>,
    name: Seq<char>,
    devs: Seq<Option<String>>,
    a: int,
    b: int,
)
    requires
        0 <= a < b < idx.len(),
        is_relink_candidate(root, idx[a], exists_at(ex, a), name, devs),
        is_relink_candidate(root, idx[b], exists_at(ex, b), name, devs),
    ensures
        candidate_count(root, idx, ex, name, devs) >= 2,
    decreases idx.len(),
{
    assert(idx.drop_last()[a] == idx[a]);
    if b == idx.len() - 1 {
        lemma_count_one(root, idx.drop_last(), ex, name, devs, a);
    } else {
        assert(idx.drop_last()[b] == idx[b]);
        lemma_count_two(root, idx.drop_last(), ex, name, devs, a, b);
    }
}

proof fn lemma_first_is_candidate(
    root: Seq<char>,
    idx: Seq<(Seq<char>, NodeModel)>,
    ex: Seq<bool>,
    name: Seq<char>,
    devs: Seq<Option<String>>,
)
    ensures
        first_candidate(root, idx, ex, name, devs) matches Some(p) ==> 0 <= p < idx.len()
            && is_relink_candidate(root, idx[p], exists_at(ex, p), name, devs),
        first_candidate(root, idx, ex, name, devs) is None ==> forall|q: int|
            0 <= q < idx.len() ==> !is_relink_candidate(
                root,
                #[trigger] idx[q],
                exists_at(ex, q),
                name,
                devs,
            ),
    decreases idx.len(),
{
    if idx.len() > 0 {
        let d = idx.drop_last();
        lemma_first_is_candidate(root, d, ex, name, devs);
        if first_candidate(root, idx, ex, name, devs) is None {
            assert forall|q: int| 0 <= q < idx.len() implies !is_relink_candidate(
                root,
                #[trigger] idx[q],
                exists_at(ex, q),
                name,
                devs,
            ) by {
                if q < d.len() {
                    assert(d[q] == idx[q]);
                }
            }
        }
    }
}

/// The node at `p` is the one to move onto the found file at `path`: the
/// found file has a name; the node's own file is gone (`ex[p]` is false or
/// missing) or lies outside the workspace root, whether or not it still
/// exists there; its file name equals the found file's, ignoring ASCII
/// case; and no other node meets these conditions.
pub open spec fn sole_movable_node(
    root: Seq<char>,
    idx: Seq<(Seq<char>, NodeModel)>,
    ex: Seq<bool>,
    path: Seq<char>,
    devs: Seq<Option<String>>,
    p: int,
) -> bool {
    &&& file_name_spec(path) is Some
    &&& 0 <= p < idx.len()
    &&& movable_node(root, idx, ex, path, devs, p)
    &&& forall|q: int|
        0 <= q < idx.len() && q != p ==> !#[trigger] movable_node(root, idx, ex, path, devs, q)
}

/// The node at `q` could be moved onto the found file at `path`.
pub open spec fn movable_node(
    root: Seq<char>,
    idx: Seq<(Seq<char>, NodeModel)>,
    ex: Seq<bool>,
    path: Seq<char>,
    devs: Seq<Option<String>>,
    q: int,
) -> bool {
    &&& (!(0 <= q < ex.len() && ex[q]) || !within_root_spec(root, idx[q].1.3, devs))
    &&& file_name_spec(idx[q].1.3) matches Some(n) && ascii_lower(n) == ascii_lower(
        file_name_spec(path)->0,
    )
}

proof fn lemma_relink_at(
    root: Seq<char>,
    idx: Seq<(Seq<char>, NodeModel)>,
    ex: Seq<bool>,
    path: Seq<char>,
    devs: Seq<Option<String>>,
    p: int,
)
    requires
        0 <= p < idx.len(),
    ensures
        relink_candidate_spec(root, idx, ex, path, devs) == Some(p) <==> sole_movable_node(
            root,
            idx,
            ex,
            path,
            devs,
            p,
        ),
{
    if file_name_spec(path) is Some {
        let name = ascii_lower(file_name_spec(path)->0);
        assert forall|q: int| 0 <= q < idx.len() implies #[trigger] movable_node(
            root,
            idx,
            ex,
            path,
            devs,
            q,
        ) == is_relink_candidate(root, idx[q], exists_at(ex, q), name, devs) by {}
        lemma_first_is_candidate(root, idx, ex, name, devs);
        if relink_candidate_spec(root, idx, ex, path, devs) == Some(p) {
            assert(is_relink_candidate(root, idx[p], exists_at(ex, p), name, devs));
            assert forall|q: int| 0 <= q < idx.len() && q != p implies !#[trigger] movable_node(
                root,
                idx,
                ex,
                path,
                devs,
                q,
            ) by {
                if is_relink_candidate(root, idx[q], exists_at(ex, q), name, devs) {
                    if q < p {
                        lemma_count_two(root, idx, ex, name, devs, q, p);
                    } else {
                        lemma_count_two(root, idx, ex, name, devs, p, q);
                    }
                }
            }
        } else if sole_movable_node(root, idx, ex, path, devs, p) {
            assert forall|q: int| 0 <= q < idx.len() && q != p implies !is_relink_candidate(
                root,
                #[trigger] idx[q],
                exists_at(ex, q),
                name,
                devs,
            ) by {
                assert(!movable_node(root, idx, ex, path, devs, q));
            }
            lemma_unique_candidate(root, idx, ex, name, devs, p);
        }
    }
}

/// A found file is moved onto a recorded node exactly when that node is the
/// only one that could be moved onto it: its own file is gone or lies
/// outside the workspace root (whether or not it still exists there), and
/// its file name equals the found file's, ignoring ASCII case.
pub proof fn law_relink_candidate(
    root: Seq<char>,
    idx: Seq<(Seq<char>, NodeModel)>,
    ex: Seq<bool>,
    path: Seq<char>,
    devs: Seq<Option<String>>,
)
    ensures
        forall|p: int|
            0 <= p < idx.len() ==> (#[trigger] relink_candidate_spec(root, idx, ex, path, devs)
                == Some(p) <==> sole_movable_node(root, idx, ex, path, devs, p)),
        relink_candidate_spec(root, idx, ex, path, devs) matches Some(p) ==> 0 <= p < idx.len(),
{
    assert forall|p: int| 0 <= p < idx.len() implies (#[trigger] relink_candidate_spec(
        root,
        idx,
        ex,
        path,
        devs,
    ) == Some(p) <==> sole_movable_node(root, idx, ex, path, devs, p)) by {
        lemma_relink_at(root, idx, ex, path, devs, p);
    }
    if file_name_spec(path) is Some {
        lemma_first_is_candidate(root, idx, ex, ascii_lower(file_name_spec(path)->0), devs);
    }
}

proof fn lemma_unique_candidate(
    root: Seq<char>,
    idx: Seq<(Seq<char>, NodeModel)>,
    ex: Seq<bool>,
    name: Seq<char>,
    devs: Seq<Option<String>>,
    p: int,
)
    requires
        0 <= p < idx.len(),
        is_relink_candidate(root, idx[p], exists_at(ex, p), name, devs),
        forall|q: int|
            0 <= q < idx.len() && q != p ==> !is_relink_candidate(
                root,
                #[trigger] idx[q],
                exists_at(ex, q),
                name,
                devs,
            ),
    ensures
        candidate_count(root, idx, ex, name, devs) == 1,
        first_candidate(root, idx, ex, name, devs) == Some(p),
    decreases idx.len(),
{
    let d = idx.drop_last();
    assert forall|q: int| 0 <= q < d.len() implies #[trigger] d[q] == idx[q] by {}
    if p == idx.len() - 1 {
        lemma_no_candidate(root, d, ex, name, devs);
    } else {
        lemma_unique_candidate(root, d, ex, name, devs, p);
    }
}

proof fn lemma_no_candidate(
    root: Seq<char>,
    idx: Seq<(Seq<char>, NodeModel)>,
    ex: Seq<bool>,
    name: Seq<char>,
    devs: Seq<Option<String>>,
)
    requires
        forall|q: int|
            0 <= q < idx.len() ==> !is_relink_candidate(
                root,
                #[trigger] idx[q],
                exists_at(ex, q),
                name,
                devs,
            ),
    ensures
        candidate_count(root, idx, ex, name, devs) == 0,
        first_candidate(root, idx, ex, name, devs) is None,
    decreases idx.len(),
{
    if idx.len() > 0 {
        let d = idx.drop_last();
        assert forall|q: int| 0 <= q < d.len() implies #[trigger] d[q] == idx[q] by {}
        lemma_no_candidate(root, d, ex, name, devs);
    }
}

fn entry_is_candidate(
    root: &str,
    e: &(String, Node),
    present: bool,
    name: &Vec<char>,
    dos_devices: &Vec<Option<String>>,
) -> (b: bool)
    ensures
        b == is_relink_candidate(root@, (e.0@, e.1@), present, name@, dos_devices@),
{
    let path = &e.1.path;
    let within = path_within_root(root, path.as_str(), dos_devices);
    let pc = chars_of(path.as_str());
    let same = match file_name_chars(&pc) {
        Some(nm) => {
            let l = lower_chars(nm.as_slice());
            chars_equal(l.as_slice(), name.as_slice())
        },
        None => false,
    };
    proof {
        let ee = (e.0@, e.1@);
        assert(ee.1.3 == path@);
        assert(within == within_root_spec(root@, ee.1.3, dos_devices@));
        assert(same == same_file_name(ee.1.3, name@));
    }
    (!present || !within) && same
}

/// Position of the recorded node to relink to the found file at
/// `scanned_path`; `flags[i]` tells whether the file of `idx[i]` exists.
pub fn find_path_relink_candidate(
    root: &str,
    idx: &Vec<(String, Node)>,
    flags: &Vec<bool>,
    scanned_path: &String,
    dos_devices: &Vec<Option<String>>,
) -> (r: Option<usize>)
    ensures
        match r {
            Some(p) => p < idx.len() && relink_candidate_spec(
                root@,
                pairs_view(idx@),
                flags@,
                scanned_path@,
                dos_devices@,
            ) == Some(p as int),
            None => relink_candidate_spec(
                root@,
                pairs_view(idx@),
                flags@,
                scanned_path@,
                dos_devices@,
            ) == None::<int>,
        },
{
    let sv = chars_of(scanned_path.as_str());
    let sn = match file_name_chars(&sv) {
        Some(n) => n,
        None => return None,
    };
    let name = lower_chars(sn.as_slice());
    let ghost pv = pairs_view(idx@);
    let mut count: usize = 0;
    let mut first: Option<usize> = None;
    let mut i: usize = 0;
    while i < idx.len()
        invariant
            i <= idx.len(),
            pv == pairs_view(idx@),
            count == candidate_count(root@, pv.take(i as int), flags@, name@, dos_devices@),
            count <= i,
            match first {
                Some(p) => p < i && first_candidate(
                    root@,
                    pv.take(i as int),
                    flags@,
                    name@,
                    dos_devices@,
                ) == Some(p as int),
                None => first_candidate(root@, pv.take(i as int), flags@, name@, dos_devices@)
                    == None::<int>,
            },
        decreases idx.len() - i,
    {
        proof {
            assert(pv.take(i + 1).drop_last() =~= pv.take(i as int));
            assert(pv.take(i + 1).last() == pv[i as int]);
        }
        let present = i < flags.len() && flags[i];
        let cand = entry_is_candidate(root, &idx[i], present, &name, dos_devices);
        if cand {
            count = count + 1;
            if first.is_none() {
                first = Some(i);
            }
        }
        i = i + 1;
    }
    proof {
        assert(pv.take(idx.len() as int) =~= pv);
    }
    if count == 1 {
        first
    } else {
        None
    }
}

/// The found paths, the index, the existence flags, and the relinks made.
pub type ReconcileState = (Seq<(Seq<char>, NodeModel)>, Seq<bool>, Seq<(Seq<char>, Seq<char>)>);

pub open spec fn set_path(n: NodeModel, p: Seq<char>) -> NodeModel {
    (n.0, n.1, n.2, p, n.4, n.5, n.6, n.7, n.8)
}

/// One found file: when no record has its key, the one candidate record
/// (if any) is moved to it, keyed anew and counted as existing, and the
/// relink (record id, new path) is noted.
pub open spec fn reconcile_step(
    root: Seq<char>,
    st: ReconcileState,
    path: Seq<char>,
    devs: Seq<Option<String>>,
) -> ReconcileState {
    let k = normalize_path_spec(path, devs);
    if key_pos(st.0, k) is Some {
        st
    } else {
        match relink_candidate_spec(root, st.0, st.1, path, devs) {
            None => st,
            Some(p) => (
                st.0.update(p, (k, set_path(st.0[p].1, path))),
                if p < st.1.len() {
                    st.1.update(p, true)
                } else {
                    st.1
                },
                st.2.push((st.0[p].1.0, path)),
            ),
        }
    }
}

pub open spec fn reconcile_spec(
    root: Seq<char>,
    st: ReconcileState,
    paths: Seq<Seq<char>>,
    devs: Seq<Option<String>>,
) -> ReconcileState
    decreases paths.len(),
{
    if paths.len() == 0 {
        st
    } else {
        reconcile_step(root, reconcile_spec(root, st, paths.drop_last(), devs), paths.last(), devs)
    }
}

/// Reconciling found files with the records only moves records: the index
/// keeps its length, every record keeps its id and all but its path (and
/// key), and each relink noted names a record's id.
pub proof fn law_reconcile_only_moves_records(
    root: Seq<char>,
    st: ReconcileState,
    paths: Seq<Seq<char>>,
    devs: Seq<Option<String>>,
)
    ensures
        reconcile_spec(root, st, paths, devs).0.len() == st.0.len(),
        forall|p: int|
            0 <= p < st.0.len() ==> (#[trigger] reconcile_spec(root, st, paths, devs).0[p]).1
                == set_path(st.0[p].1, reconcile_spec(root, st, paths, devs).0[p].1.3),
        forall|q: int|
            st.2.len() <= q < reconcile_spec(root, st, paths, devs).2.len() ==> exists|p: int|
                0 <= p < st.0.len() && st.0[p].1.0 == (#[trigger] reconcile_spec(
                    root,
                    st,
                    paths,
                    devs,
                ).2[q]).0,
    decreases paths.len(),
{
    if paths.len() > 0 {
        let prev = reconcile_spec(root, st, paths.drop_last(), devs);
        law_reconcile_only_moves_records(root, st, paths.drop_last(), devs);
        let path = paths.last();
        let k = normalize_path_spec(path, devs);
        let r = reconcile_spec(root, st, paths, devs);
        assert(r == reconcile_step(root, prev, path, devs));
        if key_pos(prev.0, k) is None {
            match relink_candidate_spec(root, prev.0, prev.1, path, devs) {
                None => {},
                Some(p0) => {
                    let name = ascii_lower(file_name_spec(path)->0);
                    lemma_first_candidate_range(root, prev.0, prev.1, name, devs);
                    assert forall|p: int| 0 <= p < st.0.len() implies (#[trigger] r.0[p]).1
                        == set_path(st.0[p].1, r.0[p].1.3) by {
                        assert(prev.0[p].1 == set_path(st.0[p].1, prev.0[p].1.3));
                    }
                    assert forall|q: int| st.2.len() <= q < r.2.len() implies exists|p: int|
                        0 <= p < st.0.len() && st.0[p].1.0 == (#[trigger] r.2[q]).0 by {
                        if q < prev.2.len() {
                            assert(r.2[q] == prev.2[q]);
                        } else {
                            assert(r.2[q].0 == prev.0[p0].1.0);
                            assert(prev.0[p0].1 == set_path(st.0[p0].1, prev.0[p0].1.3));
                        }
                    }
                },
            }
        }
    }
}

/// Every key of the index is the normalised path of its record.
pub open spec fn keyed_by_path(idx: Seq<(Seq<char>, NodeModel)>, devs: Seq<Option<String>>) -> bool {
    forall|p: int| 0 <= p < idx.len() ==> (#[trigger] idx[p]).0 == normalize_path_spec(idx[p].1.3, devs)
}

/// The index built from the records keys each record by its normalised
/// path.
pub proof fn law_index_keyed_by_path(nodes: Seq<NodeModel>, devs: Seq<Option<String>>)
    ensures
        keyed_by_path(index_spec(nodes, devs), devs),
    decreases nodes.len(),
{
    if nodes.len() > 0 {
        law_index_keyed_by_path(nodes.drop_last(), devs);
        let prev = index_spec(nodes.drop_last(), devs);
        let n = nodes.last();
        let k = normalize_path_spec(n.3, devs);
        lemma_key_pos_range(prev, k);
        let r = index_spec(nodes, devs);
        assert forall|p: int| 0 <= p < r.len() implies (#[trigger] r[p]).0 == normalize_path_spec(
            r[p].1.3,
            devs,
        ) by {
            if p < prev.len() && (key_pos(prev, k) is None || p != key_pos(prev, k)->0) {
                assert(r[p] == prev[p]);
            }
        }
    }
}

/// Reconciling keeps every key the normalised path of its record: a record
/// moved to a found file is keyed by that file's path.
pub proof fn law_reconcile_keeps_keys(
    root: Seq<char>,
    st: ReconcileState,
    paths: Seq<Seq<char>>,
    devs: Seq<Option<String>>,
)
    requires
        keyed_by_path(st.0, devs),
    ensures
        keyed_by_path(reconcile_spec(root, st, paths, devs).0, devs),
    decreases paths.len(),
{
    if paths.len() > 0 {
        law_reconcile_keeps_keys(root, st, paths.drop_last(), devs);
        let prev = reconcile_spec(root, st, paths.drop_last(), devs);
        let path = paths.last();
        if key_pos(prev.0, normalize_path_spec(path, devs)) is None {
            match relink_candidate_spec(root, prev.0, prev.1, path, devs) {
                None => {},
                Some(p0) => {
                    let name = ascii_lower(file_name_spec(path)->0);
                    lemma_first_candidate_range(root, prev.0, prev.1, name, devs);
                    let r = reconcile_spec(root, st, paths, devs);
                    assert forall|p: int| 0 <= p < r.0.len() implies (#[trigger] r.0[p]).0
                        == normalize_path_spec(r.0[p].1.3, devs) by {
                        if p != p0 {
                            assert(r.0[p] == prev.0[p]);
                        }
                    }
                },
            }
        }
    }
}

/// The found disk's record, if it has one, already carries a BCD GUID only
/// when the disk was found with that same GUID.
pub open spec fn keeps_recorded_guid(idx: Seq<(Seq<char>, NodeModel)>, s: ScannedModel) -> bool {
    match key_pos(idx, s.1) {
        Some(e) => idx[e].1.4 is Some ==> s.5 == idx[e].1.4,
        None => true,
    }
}

/// A found disk described against the index keeps its record's GUID.
pub proof fn law_scanned_keeps_recorded_guid(
    path: Seq<char>,
    locator_read: bool,
    parent: Option<Seq<char>>,
    created_at: Seq<char>,
    attached: bool,
    enum_guid: Option<Seq<char>>,
    idx: Seq<(Seq<char>, NodeModel)>,
    devs: Seq<Option<String>>,
)
    ensures
        keeps_recorded_guid(
            idx,
            scanned_spec(path, locator_read, parent, created_at, attached, enum_guid, idx, devs),
        ),
{
}

/// The record after a scan is the record before it, but for its parent,
/// and for a BCD GUID (with its boot flag) where it had none: same key, id,
/// name, path, description and creation time, and a GUID it had kept.
pub open spec fn same_record(a: (Seq<char>, NodeModel), b: (Seq<char>, NodeModel)) -> bool {
    &&& b.0 == a.0
    &&& b.1.0 == a.1.0
    &&& b.1.2 == a.1.2
    &&& b.1.3 == a.1.3
    &&& b.1.5 == a.1.5
    &&& b.1.6 == a.1.6
    &&& (a.1.4 is Some ==> b.1.4 == a.1.4)
}

proof fn lemma_key_pos_extend<X>(s: Seq<(Seq<char>, X)>, t: Seq<(Seq<char>, X)>, k: Seq<char>)
    requires
        s.len() <= t.len(),
        forall|i: int| 0 <= i < s.len() ==> (#[trigger] t[i]).0 == s[i].0,
    ensures
        key_pos(s, k) is Some ==> key_pos(t, k) == key_pos(s, k),
        key_pos(s, k) is None ==> (key_pos(t, k) is None || key_pos(t, k)->0 >= s.len()),
{
    lemma_key_pos_range(s, k);
    lemma_key_pos_range(t, k);
    if key_pos(s, k) is Some {
        let p = key_pos(s, k)->0;
        assert(t[p].0 == k);
        if key_pos(t, k) is Some {
            let q = key_pos(t, k)->0;
            if q < p {
                assert(t[q].0 == s[q].0);
            }
        }
    } else if key_pos(t, k) is Some {
        let q = key_pos(t, k)->0;
        if q < s.len() {
            assert(t[q].0 == s[q].0);
        }
    }
}

proof fn lemma_inserts_extend(
    st: (Seq<(Seq<char>, NodeModel)>, Seq<NodeModel>),
    sc: Seq<ScannedModel>,
    ids: Seq<(Seq<char>, Seq<char>)>,
)
    ensures
        inserts_spec(st, sc, ids).0.len() >= st.0.len(),
        forall|p: int| 0 <= p < st.0.len() ==> #[trigger] inserts_spec(st, sc, ids).0[p] == st.0[p],
    decreases sc.len(),
{
    if sc.len() > 0 {
        lemma_inserts_extend(st, sc.drop_last(), ids);
    }
}

proof fn lemma_updates_keep(
    idx: Seq<(Seq<char>, NodeModel)>,
    st: UpdateState,
    sc: Seq<ScannedModel>,
    ids: Seq<(Seq<char>, Seq<char>)>,
)
    requires
        st.0.len() >= idx.len(),
        forall|i: int| 0 <= i < sc.len() ==> #[trigger] keeps_recorded_guid(idx, sc[i]),
        forall|p: int| 0 <= p < idx.len() ==> same_record(idx[p], #[trigger] st.0[p]),
    ensures
        updates_spec(st, sc, ids).0.len() == st.0.len(),
        forall|p: int|
            0 <= p < st.0.len() ==> (#[trigger] updates_spec(st, sc, ids).0[p]).0 == st.0[p].0,
        forall|p: int|
            0 <= p < idx.len() ==> same_record(idx[p], #[trigger] updates_spec(st, sc, ids).0[p]),
    decreases sc.len(),
{
    if sc.len() > 0 {
        let rest = sc.drop_last();
        assert forall|i: int| 0 <= i < rest.len() implies #[trigger] keeps_recorded_guid(
            idx,
            rest[i],
        ) by {
            assert(rest[i] == sc[i]);
        }
        lemma_updates_keep(idx, st, rest, ids);
        let prev = updates_spec(st, rest, ids);
        let s = sc.last();
        assert(keeps_recorded_guid(idx, sc[sc.len() - 1]));
        let r = updates_spec(st, sc, ids);
        assert(r == update_step(prev, s, ids));
        lemma_key_pos_range(prev.0, s.1);
        lemma_key_pos_extend(idx, prev.0, s.1);
        assert forall|p: int| 0 <= p < st.0.len() implies (#[trigger] r.0[p]).0 == st.0[p].0 by {
            assert(prev.0[p].0 == st.0[p].0);
        }
        assert forall|p: int| 0 <= p < idx.len() implies same_record(idx[p], #[trigger] r.0[p]) by {
            assert(same_record(idx[p], prev.0[p]));
        }
    }
}

/// A scan drops no record and moves none: the records it starts with keep
/// their places, keys, ids, names, paths, descriptions and creation times,
/// and a BCD GUID that a record had is neither cleared nor replaced; new
/// records come after them. (What `plan_scan` leaves in the index, when the
/// found disks were described against that index.)
pub proof fn law_scan_keeps_records(
    idx: Seq<(Seq<char>, NodeModel)>,
    sc: Seq<ScannedModel>,
    ids: Seq<(Seq<char>, Seq<char>)>,
)
    requires
        forall|i: int| 0 <= i < sc.len() ==> #[trigger] keeps_recorded_guid(idx, sc[i]),
    ensures
        ({
            let ins = inserts_spec((idx, Seq::<NodeModel>::empty()), sc, ids);
            let upd = updates_spec(
                (
                    ins.0,
                    Seq::<(Seq<char>, Option<Seq<char>>)>::empty(),
                    Seq::<(Seq<char>, Seq<char>)>::empty(),
                ),
                sc,
                ids,
            );
            &&& upd.0.len() >= idx.len()
            &&& forall|p: int| 0 <= p < idx.len() ==> same_record(idx[p], #[trigger] upd.0[p])
        }),
{
    let ins = inserts_spec((idx, Seq::<NodeModel>::empty()), sc, ids);
    lemma_inserts_extend((idx, Seq::<NodeModel>::empty()), sc, ids);
    let st: UpdateState = (
        ins.0,
        Seq::<(Seq<char>, Option<Seq<char>>)>::empty(),
        Seq::<(Seq<char>, Seq<char>)>::empty(),
    );
    assert forall|p: int| 0 <= p < idx.len() implies same_record(idx[p], #[trigger] st.0[p]) by {
        assert(st.0[p] == idx[p]);
    }
    lemma_updates_keep(idx, st, sc, ids);
}

/// What is known of one found disk before it is described: its path,
/// whether its locator was read, the parent it names, its creation time,
/// whether it is attached, and the GUID the BCD store gave for it.
pub type FoundDisk = (Seq<char>, bool, Option<Seq<char>>, Seq<char>, bool, Option<Seq<char>>);

/// The found disks described against the index, as `scanned_vhd` does.
pub open spec fn described(
    found: Seq<FoundDisk>,
    idx: Seq<(Seq<char>, NodeModel)>,
    devs: Seq<Option<String>>,
) -> Seq<ScannedModel> {
    found.map_values(|f: FoundDisk| scanned_spec(f.0, f.1, f.2, f.3, f.4, f.5, idx, devs))
}

/// A scan that describes the found disks against the index and then plans
/// with that index drops, moves and renames no record, and keeps every
/// record's key, id, path, description, creation time and BCD GUID.
pub proof fn law_scan_keeps_recorded_nodes(
    idx: Seq<(Seq<char>, NodeModel)>,
    found: Seq<FoundDisk>,
    devs: Seq<Option<String>>,
    ids: Seq<(Seq<char>, Seq<char>)>,
)
    ensures
        ({
            let sc = described(found, idx, devs);
            let ins = inserts_spec((idx, Seq::<NodeModel>::empty()), sc, ids);
            let upd = updates_spec(
                (
                    ins.0,
                    Seq::<(Seq<char>, Option<Seq<char>>)>::empty(),
                    Seq::<(Seq<char>, Seq<char>)>::empty(),
                ),
                sc,
                ids,
            );
            &&& upd.0.len() >= idx.len()
            &&& forall|p: int| 0 <= p < idx.len() ==> same_record(idx[p], #[trigger] upd.0[p])
        }),
{
    let sc = described(found, idx, devs);
    assert forall|i: int| 0 <= i < sc.len() implies #[trigger] keeps_recorded_guid(idx, sc[i]) by {
        let f = found[i];
        law_scanned_keeps_recorded_guid(f.0, f.1, f.2, f.3, f.4, f.5, idx, devs);
    }
    law_scan_keeps_records(idx, sc, ids);
}

pub open spec fn string_pairs_view(v: Seq<(String, String)>) -> Seq<(Seq<char>, Seq<char>)> {
    v.map_values(|e: (String, String)| (e.0@, e.1@))
}

/// Relinks recorded nodes whose file moved to the found files that match
/// them, in the order the files were found; returns the relinks made
/// (record id, new path) for the store to apply.
pub fn reconcile_scanned_paths(
    root: &str,
    idx: &mut Vec<(String, Node)>,
    flags: &mut Vec<bool>,
    vhd_paths: &Vec<String>,
    dos_devices: &Vec<Option<String>>,
) -> (relinks: Vec<(String, String)>)
    ensures
        (pairs_view(final(idx)@), final(flags)@, string_pairs_view(relinks@)) == reconcile_spec(
            root@,
            (pairs_view(old(idx)@), old(flags)@, Seq::<(Seq<char>, Seq<char>)>::empty()),
            vhd_paths@.map_values(|s: String| s@),
            dos_devices@,
        ),
{
    let ghost paths = vhd_paths@.map_values(|s: String| s@);
    let ghost st0: ReconcileState = (
        pairs_view(idx@),
        flags@,
        Seq::<(Seq<char>, Seq<char>)>::empty(),
    );
    let mut relinks: Vec<(String, String)> = Vec::new();
    let mut i: usize = 0;
    proof {
        assert(paths.take(0) =~= Seq::<Seq<char>>::empty());
        assert(string_pairs_view(relinks@) =~= Seq::<(Seq<char>, Seq<char>)>::empty());
    }
    while i < vhd_paths.len()
        invariant
            i <= vhd_paths.len(),
            paths == vhd_paths@.map_values(|s: String| s@),
            (pairs_view(idx@), flags@, string_pairs_view(relinks@)) == reconcile_spec(
                root@,
                st0,
                paths.take(i as int),
                dos_devices@,
            ),
        decreases vhd_paths.len() - i,
    {
        proof {
            assert(paths.take(i + 1).drop_last() =~= paths.take(i as int));
            assert(paths.take(i + 1).last() == vhd_paths@[i as int]@);
        }
        let path = &vhd_paths[i];
        let k = normalize_path(path.as_str(), dos_devices);
        match find_key(idx, &k) {
            Some(_) => {},
            None => {
                match find_path_relink_candidate(root, idx, flags, path, dos_devices) {
                    None => {},
                    Some(p) => {
                        let ghost before_idx = pairs_view(idx@);
                        let ghost before_ex = flags@;
                        let ghost before_rl = string_pairs_view(relinks@);
                        let mut node = idx[p].1.clone();
                        let id = node.id.clone();
                        node.path = path.clone();
                        idx[p] = (k, node);
                        if p < flags.len() {
                            flags[p] = true;
                        }
                        relinks.push((id, path.clone()));
                        proof {
                            assert(pairs_view(idx@) =~= before_idx.update(
                                p as int,
                                (normalize_path_spec(path@, dos_devices@), set_path(
                                    before_idx[p as int].1,
                                    path@,
                                )),
                            ));
                            assert(string_pairs_view(relinks@) =~= before_rl.push(
                                (before_idx[p as int].1.0, path@),
                            ));
                        }
                    },
                }
            },
        }
        i = i + 1;
    }
    proof {
        assert(paths.take(vhd_paths.len() as int) =~= paths);
    }
    relinks
}

/// The keys that get ids: those of the records, then the keys of found
/// disks not met before, in the order found.
pub open spec fn id_keys(start: Seq<Seq<char>>, sc: Seq<ScannedModel>) -> Seq<Seq<char>>
    decreases sc.len(),
{
    if sc.len() == 0 {
        start
    } else {
        let k = id_keys(start, sc.drop_last());
        if k.contains(sc.last().1) {
            k
        } else {
            k.push(sc.last().1)
        }
    }
}

pub open spec fn index_keys(idx: Seq<(Seq<char>, NodeModel)>) -> Seq<Seq<char>> {
    idx.map_values(|e: (Seq<char>, NodeModel)| e.0)
}

/// The ids given out: each key of `id_keys` in order; the records keep
/// their ids, every other key has a fresh one of 36 characters.
pub open spec fn ids_given(
    idx: Seq<(Seq<char>, NodeModel)>,
    sc: Seq<ScannedModel>,
    ids: Seq<(Seq<char>, Seq<char>)>,
) -> bool {
    let keys = id_keys(index_keys(idx), sc);
    &&& ids.len() == keys.len()
    &&& forall|t: int| 0 <= t < ids.len() ==> (#[trigger] ids[t]).0 == keys[t]
    &&& forall|t: int| 0 <= t < idx.len() ==> (#[trigger] ids[t]).1 == idx[t].1.0
    &&& forall|t: int| idx.len() <= t < ids.len() ==> (#[trigger] ids[t]).1.len() == 36
}

/// The id given to a key.
pub open spec fn id_of(ids: Seq<(Seq<char>, Seq<char>)>, k: Seq<char>) -> Option<Seq<char>> {
    match key_pos(ids, k) {
        Some(q) => Some(ids[q].1),
        None => None,
    }
}

/// The record made for a newly found disk.
pub open spec fn new_node_model(s: ScannedModel, id: Seq<char>) -> NodeModel {
    (id, None, derive_name_spec(s.0), s.0, s.5, None, s.4, NodeStatus::Normal, s.5 is Some)
}

/// One found disk without a record gets one, under its key.
pub open spec fn insert_step(
    st: (Seq<(Seq<char>, NodeModel)>, Seq<NodeModel>),
    s: ScannedModel,
    ids: Seq<(Seq<char>, Seq<char>)>,
) -> (Seq<(Seq<char>, NodeModel)>, Seq<NodeModel>) {
    if key_pos(st.0, s.1) is Some {
        st
    } else {
        match id_of(ids, s.1) {
            None => st,
            Some(id) => (st.0.push((s.1, new_node_model(s, id))), st.1.push(new_node_model(s, id))),
        }
    }
}

pub open spec fn inserts_spec(
    st: (Seq<(Seq<char>, NodeModel)>, Seq<NodeModel>),
    sc: Seq<ScannedModel>,
    ids: Seq<(Seq<char>, Seq<char>)>,
) -> (Seq<(Seq<char>, NodeModel)>, Seq<NodeModel>)
    decreases sc.len(),
{
    if sc.len() == 0 {
        st
    } else {
        insert_step(inserts_spec(st, sc.drop_last(), ids), sc.last(), ids)
    }
}

pub open spec fn set_parent(n: NodeModel, p: Option<Seq<char>>) -> NodeModel {
    (n.0, p, n.2, n.3, n.4, n.5, n.6, n.7, n.8)
}

pub open spec fn set_bcd(n: NodeModel, g: Seq<char>) -> NodeModel {
    (n.0, n.1, n.2, n.3, Some(g), n.5, n.6, n.7, true)
}

pub type UpdateState = (
    Seq<(Seq<char>, NodeModel)>,
    Seq<(Seq<char>, Option<Seq<char>>)>,
    Seq<(Seq<char>, Seq<char>)>,
);

/// One found disk: its record's parent becomes the node of the parent the
/// locator names (none if that is unknown), and its record takes the BCD
/// GUID found, each change noted as (node id, new value).
pub open spec fn update_step(
    st: UpdateState,
    s: ScannedModel,
    ids: Seq<(Seq<char>, Seq<char>)>,
) -> UpdateState {
    match id_of(ids, s.1) {
        None => st,
        Some(node_id) => {
            let target = match s.2 {
                Some(p) => id_of(ids, p),
                None => None,
            };
            match key_pos(st.0, s.1) {
                None => st,
                Some(e) => {
                    let n = st.0[e].1;
                    let idx1 = if n.1 != target {
                        st.0.update(e, (st.0[e].0, set_parent(n, target)))
                    } else {
                        st.0
                    };
                    let pu = if n.1 != target {
                        st.1.push((node_id, target))
                    } else {
                        st.1
                    };
                    let n1 = idx1[e].1;
                    match s.5 {
                        Some(g) => if n1.4 != Some(g) {
                            (idx1.update(e, (idx1[e].0, set_bcd(n1, g))), pu, st.2.push((node_id, g)))
                        } else {
                            (idx1, pu, st.2)
                        },
                        None => (idx1, pu, st.2),
                    }
                },
            }
        },
    }
}

pub open spec fn updates_spec(
    st: UpdateState,
    sc: Seq<ScannedModel>,
    ids: Seq<(Seq<char>, Seq<char>)>,
) -> UpdateState
    decreases sc.len(),
{
    if sc.len() == 0 {
        st
    } else {
        update_step(updates_spec(st, sc.drop_last(), ids), sc.last(), ids)
    }
}

/// What a scan writes to the store.
pub struct ScanPlan {
    /// Key of every disk and its id.
    pub ids: Vec<(String, String)>,
    /// Records of newly found disks.
    pub inserts: Vec<Node>,
    /// (node id, new parent id).
    pub parent_updates: Vec<(String, Option<String>)>,
    /// (node id, new BCD GUID).
    pub bcd_updates: Vec<(String, String)>,
}

pub open spec fn parent_updates_view(v: Seq<(String, Option<String>)>) -> Seq<(Seq<char>, Option<Seq<char>>)> {
    v.map_values(|e: (String, Option<String>)| (e.0@, opt_view(e.1)))
}

fn contains_key(v: &Vec<(String, String)>, k: &String) -> (b: bool)
    ensures
        b == index_keys_of(string_pairs_view(v@)).contains(k@),
{
    let ghost pv = string_pairs_view(v@);
    let mut i: usize = 0;
    while i < v.len()
        invariant
            i <= v.len(),
            pv == string_pairs_view(v@),
            forall|t: int| 0 <= t < i ==> pv[t].0 != k@,
        decreases v.len() - i,
    {
        if v[i].0 == *k {
            proof {
                assert(index_keys_of(pv)[i as int] == k@);
            }
            return true;
        }
        i = i + 1;
    }
    proof {
        assert forall|t: int| 0 <= t < pv.len() implies index_keys_of(pv)[t] != k@ by {
            assert(index_keys_of(pv)[t] == pv[t].0);
        }
    }
    false
}

pub open spec fn index_keys_of(v: Seq<(Seq<char>, Seq<char>)>) -> Seq<Seq<char>> {
    v.map_values(|e: (Seq<char>, Seq<char>)| e.0)
}

/// Ids for every key: the records keep theirs, every new key gets a fresh
/// one.
pub fn assign_ids(idx: &Vec<(String, Node)>, scanned: &Vec<ScannedVhd>) -> (r: Vec<(String, String)>)
    ensures
        ids_given(pairs_view(idx@), scanned_view(scanned@), string_pairs_view(r@)),
{
    let ghost iv = pairs_view(idx@);
    let ghost sv = scanned_view(scanned@);
    let mut r: Vec<(String, String)> = Vec::new();
    let mut i: usize = 0;
    while i < idx.len()
        invariant
            i <= idx.len(),
            iv == pairs_view(idx@),
            string_pairs_view(r@) == iv.take(i as int).map_values(
                |e: (Seq<char>, NodeModel)| (e.0, e.1.0),
            ),
        decreases idx.len() - i,
    {
        let ghost before = string_pairs_view(r@);
        r.push((idx[i].0.clone(), idx[i].1.id.clone()));
        proof {
            assert(string_pairs_view(r@) =~= before.push((iv[i as int].0, iv[i as int].1.0)));
            assert(iv.take(i + 1).map_values(|e: (Seq<char>, NodeModel)| (e.0, e.1.0))
                =~= iv.take(i as int).map_values(|e: (Seq<char>, NodeModel)| (e.0, e.1.0)).push(
                (iv[i as int].0, iv[i as int].1.0),
            ));
        }
        i = i + 1;
    }
    proof {
        assert(iv.take(idx.len() as int) =~= iv);
        assert(index_keys_of(string_pairs_view(r@)) =~= id_keys(index_keys(iv), sv.take(0)));
    }
    let mut j: usize = 0;
    while j < scanned.len()
        invariant
            j <= scanned.len(),
            iv == pairs_view(idx@),
            sv == scanned_view(scanned@),
            r.len() >= idx.len(),
            index_keys_of(string_pairs_view(r@)) == id_keys(index_keys(iv), sv.take(j as int)),
            forall|t: int| 0 <= t < idx.len() ==> (#[trigger] string_pairs_view(r@)[t]).1 == iv[t].1.0,
            forall|t: int|
                idx.len() <= t < r.len() ==> (#[trigger] string_pairs_view(r@)[t]).1.len() == 36,
        decreases scanned.len() - j,
    {
        proof {
            assert(sv.take(j + 1).drop_last() =~= sv.take(j as int));
            assert(sv.take(j + 1).last() == scanned@[j as int]@);
        }
        let k = &scanned[j].normalized;
        if !contains_key(&r, k) {
            let ghost before = string_pairs_view(r@);
            let fresh = new_id();
            r.push((k.clone(), fresh));
            proof {
                assert(string_pairs_view(r@) =~= before.push((k@, string_pairs_view(r@).last().1)));
                assert(index_keys_of(string_pairs_view(r@)) =~= index_keys_of(before).push(k@));
            }
        }
        j = j + 1;
    }
    proof {
        assert(sv.take(scanned.len() as int) =~= sv);
        let keys = id_keys(index_keys(iv), sv);
        let ids = string_pairs_view(r@);
        assert forall|t: int| 0 <= t < ids.len() implies (#[trigger] ids[t]).0 == keys[t] by {
            assert(index_keys_of(ids)[t] == ids[t].0);
        }
    }
    r
}

fn lookup_id(ids: &Vec<(String, String)>, k: &String) -> (r: Option<String>)
    ensures
        opt_view(r) == id_of(string_pairs_view(ids@), k@),
{
    match find_key(ids, k) {
        Some(q) => {
            proof {
                assert(pairs_view(ids@) == string_pairs_view(ids@));
            }
            Some(ids[q].1.clone())
        },
        None => {
            proof {
                assert(pairs_view(ids@) =~= string_pairs_view(ids@));
            }
            None
        },
    }
}

fn plan_inserts(idx: &mut Vec<(String, Node)>, scanned: &Vec<ScannedVhd>, ids: &Vec<(String, String)>) -> (ins: Vec<Node>)
    ensures
        (pairs_view(final(idx)@), nodes_view(ins@)) == inserts_spec(
            (pairs_view(old(idx)@), Seq::<NodeModel>::empty()),
            scanned_view(scanned@),
            string_pairs_view(ids@),
        ),
{
    let ghost sv = scanned_view(scanned@);
    let ghost iv = string_pairs_view(ids@);
    let ghost st0 = (pairs_view(idx@), Seq::<NodeModel>::empty());
    let mut ins: Vec<Node> = Vec::new();
    let mut j: usize = 0;
    proof {
        assert(sv.take(0) =~= Seq::<ScannedModel>::empty());
        assert(nodes_view(ins@) =~= Seq::<NodeModel>::empty());
    }
    while j < scanned.len()
        invariant
            j <= scanned.len(),
            sv == scanned_view(scanned@),
            iv == string_pairs_view(ids@),
            (pairs_view(idx@), nodes_view(ins@)) == inserts_spec(st0, sv.take(j as int), iv),
        decreases scanned.len() - j,
    {
        proof {
            assert(sv.take(j + 1).drop_last() =~= sv.take(j as int));
            assert(sv.take(j + 1).last() == scanned@[j as int]@);
        }
        let s = &scanned[j];
        match find_key(idx, &s.normalized) {
            Some(_) => {},
            None => match lookup_id(ids, &s.normalized) {
                None => {},
                Some(id) => {
                    let node = Node {
                        id,
                        parent_id: None,
                        name: derive_name_from_path(s.path.as_str()),
                        path: s.path.clone(),
                        bcd_guid: crate::models::clone_opt_string(&s.bcd_guid),
                        desc: None,
                        created_at: s.created_at.clone(),
                        status: NodeStatus::Normal,
                        boot_files_ready: s.bcd_guid.is_some(),
                    };
                    let ghost before_idx = pairs_view(idx@);
                    let ghost before_ins = nodes_view(ins@);
                    let ghost nm = node@;
                    idx.push((s.normalized.clone(), node.clone()));
                    ins.push(node);
                    proof {
                        assert(pairs_view(idx@) =~= before_idx.push((s.normalized@, nm)));
                        assert(nodes_view(ins@) =~= before_ins.push(nm));
                    }
                },
            },
        }
        j = j + 1;
    }
    proof {
        assert(sv.take(scanned.len() as int) =~= sv);
    }
    ins
}

fn plan_updates(
    idx: &mut Vec<(String, Node)>,
    scanned: &Vec<ScannedVhd>,
    ids: &Vec<(String, String)>,
) -> (r: (Vec<(String, Option<String>)>, Vec<(String, String)>))
    ensures
        (pairs_view(final(idx)@), parent_updates_view(r.0@), string_pairs_view(r.1@)) == updates_spec(
            (
                pairs_view(old(idx)@),
                Seq::<(Seq<char>, Option<Seq<char>>)>::empty(),
                Seq::<(Seq<char>, Seq<char>)>::empty(),
            ),
            scanned_view(scanned@),
            string_pairs_view(ids@),
        ),
{
    let ghost sv = scanned_view(scanned@);
    let ghost iv = string_pairs_view(ids@);
    let ghost st0: UpdateState = (
        pairs_view(idx@),
        Seq::<(Seq<char>, Option<Seq<char>>)>::empty(),
        Seq::<(Seq<char>, Seq<char>)>::empty(),
    );
    let mut pu: Vec<(String, Option<String>)> = Vec::new();
    let mut bu: Vec<(String, String)> = Vec::new();
    let mut j: usize = 0;
    proof {
        assert(sv.take(0) =~= Seq::<ScannedModel>::empty());
        assert(parent_updates_view(pu@) =~= Seq::<(Seq<char>, Option<Seq<char>>)>::empty());
        assert(string_pairs_view(bu@) =~= Seq::<(Seq<char>, Seq<char>)>::empty());
    }
    while j < scanned.len()
        invariant
            j <= scanned.len(),
            sv == scanned_view(scanned@),
            iv == string_pairs_view(ids@),
            (pairs_view(idx@), parent_updates_view(pu@), string_pairs_view(bu@)) == updates_spec(
                st0,
                sv.take(j as int),
                iv,
            ),
        decreases scanned.len() - j,
    {
        proof {
            assert(sv.take(j + 1).drop_last() =~= sv.take(j as int));
            assert(sv.take(j + 1).last() == scanned@[j as int]@);
        }
        update_one(idx, &mut pu, &mut bu, &scanned[j], ids);
        j = j + 1;
    }
    proof {
        assert(sv.take(scanned.len() as int) =~= sv);
    }
    (pu, bu)
}

fn update_one(
    idx: &mut Vec<(String, Node)>,
    pu: &mut Vec<(String, Option<String>)>,
    bu: &mut Vec<(String, String)>,
    s: &ScannedVhd,
    ids: &Vec<(String, String)>,
)
    ensures
        (pairs_view(final(idx)@), parent_updates_view(final(pu)@), string_pairs_view(final(bu)@))
            == update_step(
            (pairs_view(old(idx)@), parent_updates_view(old(pu)@), string_pairs_view(old(bu)@)),
            s@,
            string_pairs_view(ids@),
        ),
{
    let node_id = match lookup_id(ids, &s.normalized) {
        Some(id) => id,
        None => return,
    };
    let target = match &s.parent_normalized {
        Some(p) => lookup_id(ids, p),
        None => None,
    };
    let e = match find_key(idx, &s.normalized) {
        Some(e) => e,
        None => return,
    };
    let ghost idx0 = pairs_view(idx@);
    let ghost pu0 = parent_updates_view(pu@);
    let ghost bu0 = string_pairs_view(bu@);
    let mut node = idx[e].1.clone();
    let key = idx[e].0.clone();
    let changed_parent = !crate::scan::opt_eq(&node.parent_id, &target);
    if changed_parent {
        node.parent_id = crate::models::clone_opt_string(&target);
        pu.push((node_id.clone(), target));
    }
    let ghost nm1 = node@;
    let ghost idx1 = if changed_parent {
        idx0.update(e as int, (idx0[e as int].0, nm1))
    } else {
        idx0
    };
    proof {
        if changed_parent {
            assert(parent_updates_view(pu@) =~= pu0.push((node_id@, nm1.1)));
        }
    }
    match &s.bcd_guid {
        Some(g) => {
            let want = Some(g.clone());
            if !crate::scan::opt_eq(&node.bcd_guid, &want) {
                node.bcd_guid = want;
                node.boot_files_ready = true;
                bu.push((node_id, g.clone()));
                proof {
                    assert(string_pairs_view(bu@) =~= bu0.push((node_id@, g@)));
                }
            }
        },
        None => {},
    }
    idx[e] = (key, node);
    proof {
        assert(pairs_view(idx@) =~= idx0.update(e as int, (idx0[e as int].0, node@)));
    }
}

/// The store changes of a scan, from the records keyed by path and the
/// disks found: ids for all, records for the new ones, then the parent
/// and BCD changes; the index ends up matching the store.
pub fn plan_scan(idx: &mut Vec<(String, Node)>, scanned: &Vec<ScannedVhd>) -> (plan: ScanPlan)
    ensures
        ids_given(pairs_view(old(idx)@), scanned_view(scanned@), string_pairs_view(plan.ids@)),
        ({
            let ids = string_pairs_view(plan.ids@);
            let ins = inserts_spec(
                (pairs_view(old(idx)@), Seq::<NodeModel>::empty()),
                scanned_view(scanned@),
                ids,
            );
            let upd = updates_spec(
                (
                    ins.0,
                    Seq::<(Seq<char>, Option<Seq<char>>)>::empty(),
                    Seq::<(Seq<char>, Seq<char>)>::empty(),
                ),
                scanned_view(scanned@),
                ids,
            );
            &&& nodes_view(plan.inserts@) == ins.1
            &&& pairs_view(final(idx)@) == upd.0
            &&& parent_updates_view(plan.parent_updates@) == upd.1
            &&& string_pairs_view(plan.bcd_updates@) == upd.2
        }),
{
    let ids = assign_ids(idx, scanned);
    let inserts = plan_inserts(idx, scanned, &ids);
    let (parent_updates, bcd_updates) = plan_updates(idx, scanned, &ids);
    ScanPlan { ids, inserts, parent_updates, bcd_updates }
}

proof fn lemma_key_pos_push<X>(s: Seq<(Seq<char>, X)>, x: (Seq<char>, X), k: Seq<char>)
    ensures
        key_pos(s, k) is Some ==> key_pos(s.push(x), k) == key_pos(s, k),
        x.0 == k ==> key_pos(s.push(x), k) is Some,
{
    assert(s.push(x).drop_last() =~= s);
}

proof fn lemma_id_keys_contains(start: Seq<Seq<char>>, sc: Seq<ScannedModel>)
    ensures
        forall|i: int| 0 <= i < sc.len() ==> id_keys(start, sc).contains(#[trigger] sc[i].1),
        forall|i: int| 0 <= i < start.len() ==> id_keys(start, sc).contains(#[trigger] start[i]),
    decreases sc.len(),
{
    if sc.len() > 0 {
        let prev = id_keys(start, sc.drop_last());
        lemma_id_keys_contains(start, sc.drop_last());
        assert forall|i: int| 0 <= i < sc.len() implies id_keys(start, sc).contains(
            #[trigger] sc[i].1,
        ) by {
            if i < sc.len() - 1 {
                assert(sc.drop_last()[i] == sc[i]);
                assert(prev.contains(sc[i].1));
                if !prev.contains(sc.last().1) {
                    let a = choose|a: int| 0 <= a < prev.len() && prev[a] == sc[i].1;
                    assert(prev.push(sc.last().1)[a] == sc[i].1);
                }
            } else {
                if !prev.contains(sc.last().1) {
                    assert(prev.push(sc.last().1)[prev.len() as int] == sc.last().1);
                }
            }
        }
        assert forall|i: int| 0 <= i < start.len() implies id_keys(start, sc).contains(
            #[trigger] start[i],
        ) by {
            assert(prev.contains(start[i]));
            if !prev.contains(sc.last().1) {
                let a = choose|a: int| 0 <= a < prev.len() && prev[a] == start[i];
                assert(prev.push(sc.last().1)[a] == start[i]);
            }
        }
    }
}

proof fn lemma_inserts_cover(
    st: (Seq<(Seq<char>, NodeModel)>, Seq<NodeModel>),
    sc: Seq<ScannedModel>,
    ids: Seq<(Seq<char>, Seq<char>)>,
)
    requires
        forall|i: int| 0 <= i < sc.len() ==> id_of(ids, #[trigger] sc[i].1) is Some,
    ensures
        forall|i: int|
            0 <= i < sc.len() ==> key_pos(inserts_spec(st, sc, ids).0, #[trigger] sc[i].1) is Some,
        forall|k: Seq<char>|
            key_pos(st.0, k) is Some ==> #[trigger] key_pos(inserts_spec(st, sc, ids).0, k) is Some,
    decreases sc.len(),
{
    if sc.len() > 0 {
        let prev = inserts_spec(st, sc.drop_last(), ids);
        assert forall|i: int| 0 <= i < sc.len() - 1 implies id_of(ids, #[trigger] sc.drop_last()[i].1) is Some by {
            assert(sc.drop_last()[i] == sc[i]);
        }
        lemma_inserts_cover(st, sc.drop_last(), ids);
        let s = sc.last();
        assert(id_of(ids, sc[sc.len() - 1].1) is Some);
        assert forall|k: Seq<char>| key_pos(prev.0, k) is Some implies #[trigger] key_pos(
            inserts_spec(st, sc, ids).0,
            k,
        ) is Some by {
            if key_pos(prev.0, s.1) is None {
                let id = id_of(ids, s.1)->0;
                lemma_key_pos_push(prev.0, (s.1, new_node_model(s, id)), k);
            }
        }
        assert forall|i: int| 0 <= i < sc.len() implies key_pos(
            inserts_spec(st, sc, ids).0,
            #[trigger] sc[i].1,
        ) is Some by {
            if i < sc.len() - 1 {
                assert(sc.drop_last()[i] == sc[i]);
                assert(key_pos(prev.0, sc[i].1) is Some);
            } else if key_pos(prev.0, s.1) is None {
                let id = id_of(ids, s.1)->0;
                lemma_key_pos_push(prev.0, (s.1, new_node_model(s, id)), s.1);
            }
        }
    }
}

/// After a scan every disk found has a record under its key: the records
/// made for new disks cover every key that had none, and no record is
/// lost.
pub proof fn law_scan_records_every_found_disk(
    idx: Seq<(Seq<char>, NodeModel)>,
    sc: Seq<ScannedModel>,
    ids: Seq<(Seq<char>, Seq<char>)>,
)
    requires
        ids_given(idx, sc, ids),
    ensures
        forall|i: int|
            0 <= i < sc.len() ==> key_pos(
                inserts_spec((idx, Seq::<NodeModel>::empty()), sc, ids).0,
                #[trigger] sc[i].1,
            ) is Some,
        forall|k: Seq<char>|
            key_pos(idx, k) is Some ==> #[trigger] key_pos(
                inserts_spec((idx, Seq::<NodeModel>::empty()), sc, ids).0,
                k,
            ) is Some,
{
    let keys = id_keys(index_keys(idx), sc);
    lemma_id_keys_contains(index_keys(idx), sc);
    assert forall|i: int| 0 <= i < sc.len() implies id_of(ids, #[trigger] sc[i].1) is Some by {
        assert(keys.contains(sc[i].1));
        let t = choose|t: int| 0 <= t < keys.len() && keys[t] == sc[i].1;
        assert(ids[t].0 == keys[t]);
        lemma_key_pos_range(ids, sc[i].1);
    }
    lemma_inserts_cover((idx, Seq::<NodeModel>::empty()), sc, ids);
}

} // verus!
