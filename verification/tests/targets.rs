use std::collections::HashSet;
use sword::loader::SchedSwitchTarget;
use sword::targets::{
    apply_sync_outcome, refresh_step, same_ids, RefreshStep, collect_target_snapshot, collect_thread_ids, target_process_ids, target_sync_plan, validate_target_capacity,
    IdSet, ProcEntry, ProcessThreads, TargetSnapshot,
};

fn names(list: &[&str]) -> Vec<String> {
    list.iter().map(|s| s.to_string()).collect()
}

fn hash_set(ids: &[u32]) -> HashSet<u32> {
    ids.iter().copied().collect()
}

fn sorted(set: &HashSet<u32>) -> Vec<u32> {
    let mut v: Vec<u32> = set.iter().copied().collect();
    v.sort();
    v
}

fn sorted_vec(mut v: Vec<u32>) -> Vec<u32> {
    v.sort();
    v
}

fn id_set(ids: &[u32]) -> IdSet {
    let mut s = IdSet::new();
    for id in ids {
        s.insert(*id);
    }
    s
}

#[test]
fn id_set_keeps_ids_sorted_and_unique() {
    let mut s = IdSet::new();
    assert!(s.insert(30));
    assert!(s.insert(10));
    assert!(s.insert(20));
    assert!(!s.insert(10));
    assert_eq!(s.ids(), &vec![10, 20, 30]);
    assert_eq!(s.len(), 3);
    assert!(s.contains(20));
    assert!(!s.contains(25));
    assert!(s.remove(20));
    assert!(!s.remove(20));
    assert_eq!(s.into_vec(), vec![10, 30]);
}

#[test]
fn id_sets_compare_by_contents() {
    assert!(id_set(&[3, 1, 2]).same_as(&id_set(&[2, 3, 1])));
    assert!(!id_set(&[1, 2]).same_as(&id_set(&[1, 3])));
    assert!(!id_set(&[1, 2]).same_as(&id_set(&[1])));
    assert!(IdSet::new().same_as(&IdSet::new()));
}

#[test]
fn thread_ids_come_sorted_without_repeats() {
    let r = collect_thread_ids(42, &names(&["45", "42", "43", "43"]));
    assert_eq!(r, Ok(vec![42, 43, 45]));
    // A leading plus sign is accepted, as std's integer parsing accepts it.
    assert_eq!(collect_thread_ids(42, &names(&["+7"])), Ok(vec![7]));
}

#[test]
fn thread_id_errors_name_the_entry() {
    let r = collect_thread_ids(42, &names(&["43", "abc", "x"]));
    assert_eq!(r, Err("failed to parse tid from /proc/42/task/abc: invalid digit found in string".to_string()));
    let r = collect_thread_ids(42, &names(&["4294967296"]));
    assert_eq!(r, Err("failed to parse tid from /proc/42/task/4294967296: number too large to fit in target type".to_string()));
    let r = collect_thread_ids(42, &names(&[""]));
    assert_eq!(r, Err("failed to parse tid from /proc/42/task/: cannot parse integer from empty string".to_string()));
    let r = collect_thread_ids(42, &names(&["-1"]));
    assert_eq!(r, Err("failed to parse tid from /proc/42/task/-1: invalid digit found in string".to_string()));
    let r = collect_thread_ids(7, &names(&[]));
    assert_eq!(r, Err("no tids found under /proc/7/task".to_string()));
}

fn entry(name: &str, cmdline: Option<&[u8]>, comm: Option<&str>) -> ProcEntry {
    ProcEntry {
        name: name.to_string(),
        cmdline: cmdline.map(|c| c.to_vec()),
        comm: comm.map(|c| c.to_string()),
    }
}

#[test]
fn process_ids_are_the_matching_numeric_entries() {
    let entries = vec![
        entry("300", Some(b"java\0-jar\0app.jar\0"), Some("java\n")),
        entry("self", Some(b"java\0-jar\0app.jar\0"), Some("java\n")),
        entry("100", Some(b"java\0-jar\0app.jar\0"), Some("java\n")),
        entry("200", Some(b"python3\0"), Some("python3\n")),
        entry("150", None, None),
    ];
    let by_cmdline = SchedSwitchTarget::Cmdline("app.jar".to_string());
    assert_eq!(target_process_ids(&by_cmdline, false, &entries), vec![100, 300]);
    let by_comm = SchedSwitchTarget::Comm("python3".to_string());
    assert_eq!(target_process_ids(&by_comm, false, &entries), vec![200]);
    let by_pid = SchedSwitchTarget::Pid(150);
    assert_eq!(target_process_ids(&by_pid, true, &entries), vec![150]);
    assert_eq!(target_process_ids(&by_pid, false, &entries), Vec::<u32>::new());
}

#[test]
fn snapshot_keeps_processes_whose_threads_could_not_be_listed() {
    let processes = vec![
        ProcessThreads { tgid: 100, tids: Ok(vec![100, 101]) },
        ProcessThreads { tgid: 200, tids: Err("gone".to_string()) },
        ProcessThreads { tgid: 300, tids: Ok(vec![300, 101]) },
    ];
    let snapshot = collect_target_snapshot(&processes);
    assert_eq!(sorted(&snapshot.tgids), vec![100, 200, 300]);
    assert_eq!(sorted(&snapshot.tids), vec![100, 101, 300]);
}

#[test]
fn capacity_errors_name_the_target_and_the_count() {
    let target = SchedSwitchTarget::Comm("java".to_string());
    let mut snapshot = TargetSnapshot::new();
    for id in 0..128 {
        snapshot.tgids.insert(id);
    }
    assert_eq!(validate_target_capacity(&target, &snapshot), Ok(()));
    snapshot.tgids.insert(1000);
    assert_eq!(
        validate_target_capacity(&target, &snapshot),
        Err("comm java has 129 processes, exceeds map capacity 128".to_string())
    );
    let mut threads = TargetSnapshot::new();
    for id in 0..4097 {
        threads.tids.insert(id);
    }
    assert_eq!(
        validate_target_capacity(&SchedSwitchTarget::Pid(5), &threads),
        Err("pid 5 has 4097 tids, exceeds map capacity 4096".to_string())
    );
}

#[test]
fn sync_plan_adds_new_ids_and_removes_stale_ones() {
    let known = hash_set(&[1, 2, 3, 7]);
    let current = hash_set(&[2, 3, 4, 9]);
    let (add, remove) = target_sync_plan(&known, &current);
    assert_eq!(sorted_vec(add), vec![4, 9]);
    assert_eq!(sorted_vec(remove), vec![1, 7]);
    let (add, remove) = target_sync_plan(&current, &current);
    assert!(add.is_empty() && remove.is_empty());
}

#[test]
fn applying_a_sync_plan_reaches_the_snapshot() {
    let mut known = hash_set(&[5, 6, 8]);
    let current = hash_set(&[6, 7, 9]);
    let (add, remove) = target_sync_plan(&known, &current);
    for id in add {
        known.insert(id);
    }
    for id in remove {
        known.remove(&id);
    }
    assert!(same_ids(&known, &current));
    assert!(!same_ids(&known, &hash_set(&[6, 7])));
}

fn snapshot(tgids: &[u32], tids: &[u32]) -> TargetSnapshot {
    TargetSnapshot { tgids: hash_set(tgids), tids: hash_set(tids) }
}

#[test]
fn a_failed_scan_keeps_the_filters() {
    let target = SchedSwitchTarget::Comm("java".to_string());
    let step = refresh_step(&target, &hash_set(&[1]), &hash_set(&[1, 2]), &Err("boom".to_string()));
    assert!(matches!(step, RefreshStep::ScanFailed));
}

#[test]
fn an_oversized_scan_keeps_the_filters() {
    let target = SchedSwitchTarget::Comm("java".to_string());
    let many: Vec<u32> = (0..200).collect();
    let step = refresh_step(&target, &hash_set(&[1]), &hash_set(&[1]), &Ok(snapshot(&many, &[1])));
    match step {
        RefreshStep::OverCapacity(m) => assert_eq!(m, "comm java has 200 processes, exceeds map capacity 128"),
        _ => panic!("over capacity"),
    }
}

#[test]
fn a_refresh_brings_the_filters_to_the_snapshot() {
    let target = SchedSwitchTarget::Pid(1);
    let mut tgids = hash_set(&[1, 2]);
    let mut tids = hash_set(&[1, 2, 3]);
    let scan = Ok(snapshot(&[2, 5], &[2, 5, 6]));
    match refresh_step(&target, &tgids, &tids, &scan) {
        RefreshStep::Sync { changed, add_tgids, remove_tgids, add_tids, remove_tids } => {
            assert!(changed);
            assert_eq!((add_tgids.clone(), remove_tgids.clone()), (vec![5], vec![1]));
            assert_eq!((sorted_vec(add_tids.clone()), sorted_vec(remove_tids.clone())), (vec![5, 6], vec![1, 3]));
            for id in add_tgids { apply_sync_outcome(&mut tgids, id, true, true); }
            for id in remove_tgids { apply_sync_outcome(&mut tgids, id, false, true); }
            // One tid could not be added: the filter does not claim it.
            for id in add_tids { apply_sync_outcome(&mut tids, id, true, id != 6); }
            for id in remove_tids { apply_sync_outcome(&mut tids, id, false, true); }
        }
        _ => panic!("a sync"),
    }
    assert_eq!(sorted(&tgids), vec![2, 5]);
    assert_eq!(sorted(&tids), vec![2, 5]);
    match refresh_step(&target, &tgids, &hash_set(&[2, 5, 6]), &scan) {
        RefreshStep::Sync { changed, .. } => assert!(!changed),
        _ => panic!("a sync"),
    }
}
