use vhdx_manager::models::{Node, NodeStatus};
use vhdx_manager::scan::{
    assign_ids, find_path_relink_candidate, index_nodes, needs_bcd_lookup, node_statuses,
    plan_scan, reconcile_scanned_paths, scanned_vhd, ScannedVhd,
};

fn node(id: &str, parent: Option<&str>, path: &str, guid: Option<&str>) -> Node {
    Node {
        id: id.into(),
        parent_id: parent.map(|p| p.to_string()),
        name: id.into(),
        path: path.into(),
        bcd_guid: guid.map(|g| g.to_string()),
        desc: None,
        created_at: "t0".into(),
        status: NodeStatus::Normal,
        boot_files_ready: guid.is_some(),
    }
}

fn no_devices() -> Vec<Option<String>> {
    vec![]
}

fn scanned(path: &str, parent: Option<&str>, idx: &Vec<(String, Node)>) -> ScannedVhd {
    scanned_vhd(
        &path.to_string(),
        true,
        &parent.map(|p| p.to_string()),
        &"t1".to_string(),
        false,
        &None,
        idx,
        &no_devices(),
    )
}

#[test]
fn records_are_keyed_by_path_later_ones_winning() {
    let nodes = vec![
        node("a", None, r"E:\ws\disks\A.vhdx", None),
        node("b", None, r"e:/ws/disks/a.vhdx", None),
        node("c", None, r"E:\ws\disks\c.vhdx", None),
    ];
    let idx = index_nodes(&nodes, &no_devices());
    assert_eq!(idx.len(), 2);
    assert_eq!(idx[0].0, r"e:\ws\disks\a.vhdx");
    assert_eq!(idx[0].1.id, "b");
    assert_eq!(idx[1].1.id, "c");
}

#[test]
fn bcd_enumeration_is_needed_for_unknown_or_unbooted_disks() {
    let idx = index_nodes(&vec![node("a", None, r"E:\a.vhdx", Some("{g}"))], &no_devices());
    assert!(!needs_bcd_lookup(&vec![r"E:\A.vhdx".to_string()], &idx, &no_devices()));
    assert!(needs_bcd_lookup(&vec![r"E:\b.vhdx".to_string()], &idx, &no_devices()));
    let idx = index_nodes(&vec![node("a", None, r"E:\a.vhdx", None)], &no_devices());
    assert!(needs_bcd_lookup(&vec![r"E:\a.vhdx".to_string()], &idx, &no_devices()));
}

#[test]
fn scanned_disks_take_the_recorded_guid_first() {
    let idx = index_nodes(&vec![node("a", None, r"E:\a.vhdx", Some("{old}"))], &no_devices());
    let s = scanned_vhd(
        &r"E:\A.vhdx".to_string(),
        true,
        &Some(r"E:\P.vhdx".to_string()),
        &"t".to_string(),
        true,
        &Some("{enum}".to_string()),
        &idx,
        &no_devices(),
    );
    assert_eq!(s.normalized, r"e:\a.vhdx");
    assert_eq!(s.parent_normalized.as_deref(), Some(r"e:\p.vhdx"));
    assert_eq!(s.bcd_guid.as_deref(), Some("{old}"));
    let s = scanned_vhd(
        &r"E:\b.vhdx".to_string(),
        false,
        &Some(r"E:\P.vhdx".to_string()),
        &"t".to_string(),
        false,
        &Some("{enum}".to_string()),
        &idx,
        &no_devices(),
    );
    assert_eq!(s.parent_normalized, None);
    assert!(!s.detail_ok);
    assert_eq!(s.bcd_guid.as_deref(), Some("{enum}"));
}

#[test]
fn moved_disks_are_relinked_by_file_name() {
    let root = r"E:\ws";
    let mut idx = index_nodes(
        &vec![
            node("a", None, r"D:\old\disks\0001-base.vhdx", None),
            node("b", None, r"E:\ws\disks\0002-child.vhdx", None),
        ],
        &no_devices(),
    );
    let mut present = vec![false, true];
    let found = vec![r"E:\ws\disks\0001-BASE.vhdx".to_string(), r"E:\ws\disks\0002-child.vhdx".to_string()];
    assert_eq!(find_path_relink_candidate(root, &idx, &present, &found[0], &no_devices()), Some(0));
    let relinks = reconcile_scanned_paths(root, &mut idx, &mut present, &found, &no_devices());
    assert_eq!(relinks, vec![("a".to_string(), r"E:\ws\disks\0001-BASE.vhdx".to_string())]);
    assert_eq!(idx[0].0, r"e:\ws\disks\0001-base.vhdx");
    assert_eq!(idx[0].1.path, r"E:\ws\disks\0001-BASE.vhdx");
    assert_eq!(present, vec![true, true]);
}

#[test]
fn ambiguous_relinks_are_skipped() {
    let root = r"E:\ws";
    let idx = index_nodes(
        &vec![
            node("a", None, r"D:\one\base.vhdx", None),
            node("b", None, r"D:\two\base.vhdx", None),
        ],
        &no_devices(),
    );
    let present = vec![true, true];
    assert_eq!(
        find_path_relink_candidate(root, &idx, &present, &r"E:\ws\disks\base.vhdx".to_string(), &no_devices()),
        None
    );
}

#[test]
fn a_scan_keeps_ids_and_records_new_disks() {
    let nodes = vec![node("base", None, r"E:\ws\disks\0001-base.vhdx", None)];
    let mut idx = index_nodes(&nodes, &no_devices());
    let found = vec![
        scanned(r"E:\ws\disks\0001-base.vhdx", None, &idx),
        scanned(r"E:\ws\disks\0002-child.vhdx", Some(r"E:\ws\disks\0001-base.vhdx"), &idx),
    ];
    let ids = assign_ids(&idx, &found);
    assert_eq!(ids.len(), 2);
    assert_eq!(ids[0], (r"e:\ws\disks\0001-base.vhdx".to_string(), "base".to_string()));
    let plan = plan_scan(&mut idx, &found);
    assert_eq!(plan.ids[0].1, "base");
    assert_eq!(plan.ids[1].0, r"e:\ws\disks\0002-child.vhdx");
    let child_id = plan.ids[1].1.clone();
    assert_eq!(child_id.len(), 36);
    assert_eq!(plan.inserts.len(), 1);
    assert_eq!(plan.inserts[0].id, child_id);
    assert_eq!(plan.inserts[0].name, "child");
    assert_eq!(plan.inserts[0].parent_id, None);
    assert_eq!(plan.inserts[0].created_at, "t1");
    assert_eq!(plan.parent_updates, vec![(child_id.clone(), Some("base".to_string()))]);
    assert!(plan.bcd_updates.is_empty());
    assert_eq!(idx.len(), 2);
    assert_eq!(idx[1].1.parent_id.as_deref(), Some("base"));
}

#[test]
fn a_scan_records_new_bcd_guids_and_drops_stale_parents() {
    let nodes = vec![node("c", Some("gone"), r"E:\c.vhdx", None)];
    let mut idx = index_nodes(&nodes, &no_devices());
    let mut s = scanned(r"E:\c.vhdx", None, &idx);
    s.bcd_guid = Some("{new}".into());
    let plan = plan_scan(&mut idx, &vec![s]);
    assert_eq!(plan.parent_updates, vec![("c".to_string(), None)]);
    assert_eq!(plan.bcd_updates, vec![("c".to_string(), "{new}".to_string())]);
    assert!(idx[0].1.boot_files_ready);
}

#[test]
fn statuses_follow_the_scan() {
    let latest = vec![
        node("p", None, r"E:\p.vhdx", None),
        node("c", Some("p"), r"E:\c.vhdx", None),
        node("o", Some("x"), r"E:\o.vhdx", None),
        node("m", None, r"E:\m.vhdx", None),
        node("e", None, r"E:\e.vhdx", None),
        node("g", None, r"E:\g.vhdx", None),
        node("u", None, r"E:\u.vhdx", None),
    ];
    let idx = index_nodes(&latest, &no_devices());
    let mut m = scanned(r"E:\m.vhdx", None, &idx);
    m.attached = true;
    let mut e = scanned(r"E:\e.vhdx", None, &idx);
    e.detail_ok = false;
    let found = vec![
        scanned(r"E:\p.vhdx", None, &idx),
        scanned(r"E:\c.vhdx", Some(r"E:\p.vhdx"), &idx),
        scanned(r"E:\o.vhdx", None, &idx),
        m,
        e,
    ];
    let present = vec![true, true, true, true, true, false, true];
    let st = node_statuses(&latest, &present, &found, &no_devices());
    assert_eq!(
        st,
        vec![
            NodeStatus::Normal,
            NodeStatus::Normal,
            NodeStatus::MissingParent,
            NodeStatus::Mounted,
            NodeStatus::Error,
            NodeStatus::MissingFile,
            NodeStatus::Normal,
        ]
    );
}

#[test]
fn a_scan_keeps_a_recorded_guid_and_name() {
    let nodes = vec![node("k", None, r"E:\ws\disks\0004-keep.vhdx", Some("{old}"))];
    let mut idx = index_nodes(&nodes, &no_devices());
    let s = scanned_vhd(
        &r"E:\ws\disks\0004-keep.vhdx".to_string(),
        true,
        &None,
        &"t9".to_string(),
        false,
        &Some("{enumerated}".to_string()),
        &idx,
        &no_devices(),
    );
    assert_eq!(s.bcd_guid.as_deref(), Some("{old}"));
    let plan = plan_scan(&mut idx, &vec![s]);
    assert!(plan.inserts.is_empty());
    assert!(plan.bcd_updates.is_empty());
    assert_eq!(idx.len(), 1);
    assert_eq!(idx[0].0, r"e:\ws\disks\0004-keep.vhdx");
    assert_eq!(idx[0].1.id, "k");
    assert_eq!(idx[0].1.name, "k");
    assert_eq!(idx[0].1.bcd_guid.as_deref(), Some("{old}"));
}
