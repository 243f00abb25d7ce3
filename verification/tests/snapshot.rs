use desktop_commands::{get_processes, ranked_processes, ProcessInfo};
use sysinfo::System;

fn percent(entry: &ProcessInfo) -> f32 {
    f32::from_bits(entry.cpu_usage.to_bits())
}

fn is_ranked(entries: &[ProcessInfo]) -> bool {
    entries.windows(2).all(|pair| !(percent(&pair[0]) < percent(&pair[1])))
}

#[test]
fn get_processes_succeeds_with_a_ranked_listing() {
    let listing = get_processes().expect("the listing cannot fail");
    assert!(is_ranked(&listing));
}

#[test]
fn get_processes_lists_this_process() {
    let own = sysinfo::get_current_pid().expect("this platform has process identifiers");
    let listing = get_processes().expect("the listing cannot fail");
    assert!(listing.iter().any(|entry| entry.pid == own.as_u32()));
}

#[test]
fn two_snapshots_are_each_ranked() {
    let first = get_processes().expect("the listing cannot fail");
    let second = get_processes().expect("the listing cannot fail");
    assert!(is_ranked(&first));
    assert!(is_ranked(&second));
}

#[test]
fn nothing_loaded_gives_an_empty_listing() {
    let system = System::new();
    assert!(ranked_processes(&system).is_empty());
}

#[test]
fn the_listing_holds_the_loaded_processes() {
    let mut system = System::new();
    system.refresh_processes();
    let listing = ranked_processes(&system);
    assert_eq!(listing.len(), system.processes().len());
    assert!(is_ranked(&listing));
    for entry in &listing {
        let process = system
            .process(sysinfo::Pid::from_u32(entry.pid))
            .expect("a listed process is a loaded one");
        assert_eq!(entry.name, process.name());
        assert_eq!(entry.cpu_usage.to_bits(), process.cpu_usage().to_bits());
        assert_eq!(entry.memory_usage, process.memory());
    }
    for pid in system.processes().keys() {
        let listed = listing.iter().filter(|entry| entry.pid == pid.as_u32()).count();
        assert_eq!(listed, 1);
    }
}

#[test]
fn the_listing_of_one_system_holds_the_same_entries_each_time() {
    let mut system = System::new();
    system.refresh_processes();
    let mut first = ranked_processes(&system);
    let mut second = ranked_processes(&system);
    first.sort_by_key(|entry| entry.pid);
    second.sort_by_key(|entry| entry.pid);
    assert_eq!(first, second);
}
