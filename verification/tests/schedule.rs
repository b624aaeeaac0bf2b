use synth_core::schedule::{schedule, Dependency};

fn dep(earlier: usize, later: usize) -> Dependency {
    Dependency { earlier, later }
}

#[test]
fn independent_units_run_in_declaration_order() {
    assert_eq!(schedule(4, &vec![]), Some(vec![0, 1, 2, 3]));
    assert_eq!(schedule(0, &vec![]), Some(vec![]));
}

#[test]
fn a_unit_runs_after_the_units_it_reads() {
    let deps = vec![dep(2, 0), dep(1, 2)];
    assert_eq!(schedule(3, &deps), Some(vec![1, 2, 0]));
}

#[test]
fn ties_go_to_the_unit_declared_first() {
    let deps = vec![dep(0, 1), dep(1, 2), dep(2, 3), dep(4, 3)];
    assert_eq!(schedule(5, &deps), Some(vec![0, 1, 2, 4, 3]));
    let deps = vec![dep(3, 1)];
    assert_eq!(schedule(4, &deps), Some(vec![0, 2, 3, 1]));
}

#[test]
fn repeated_dependencies_change_nothing() {
    let deps = vec![dep(1, 0), dep(1, 0), dep(1, 0)];
    assert_eq!(schedule(2, &deps), Some(vec![1, 0]));
}

#[test]
fn circles_have_no_schedule() {
    assert_eq!(schedule(1, &vec![dep(0, 0)]), None);
    assert_eq!(schedule(2, &vec![dep(0, 1), dep(1, 0)]), None);
    assert_eq!(schedule(4, &vec![dep(0, 1), dep(1, 2), dep(2, 3), dep(3, 1)]), None);
}
