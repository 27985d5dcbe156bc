use steering::formation::assign_member;
use steering::separation_pairs;
use steering::{CycleIndex, FormationType, Phase, SteeringFormationLeader, SteeringFormationMember};

#[test]
fn cycle_next_wraps_past_the_end() {
    let mut cursor = CycleIndex { index: 0, max: 3 };
    cursor.next();
    assert_eq!(cursor.index, 1);
    cursor.next();
    assert_eq!(cursor.index, 2);
    cursor.next();
    assert_eq!(cursor.index, 0);
    assert_eq!(cursor.max, 3);
}

#[test]
fn cycle_previous_wraps_before_the_start() {
    let mut cursor = CycleIndex { index: 0, max: 3 };
    cursor.previous();
    assert_eq!(cursor.index, 2);
    cursor.previous();
    assert_eq!(cursor.index, 1);
    cursor.previous();
    assert_eq!(cursor.index, 0);
}

#[test]
fn cycle_steps_cancel() {
    let mut cursor = CycleIndex { index: 4, max: 5 };
    cursor.next();
    cursor.previous();
    assert_eq!(cursor, CycleIndex { index: 4, max: 5 });
    cursor.previous();
    cursor.next();
    assert_eq!(cursor, CycleIndex { index: 4, max: 5 });
}

#[test]
fn cycle_over_nothing_stays_at_zero() {
    let mut cursor = CycleIndex { index: 0, max: 0 };
    cursor.next();
    assert_eq!(cursor.index, 0);
    let mut full = CycleIndex { index: usize::MAX, max: usize::MAX };
    full.next();
    assert_eq!(full.index, 0);
}

#[test]
fn formation_slots_alternate_sides() {
    let expected: Vec<i64> = vec![0, -1, 1, -2, 2, -3, 3];
    let mut index: usize = 0;
    while index < expected.len() {
        let member = SteeringFormationMember { index };
        assert_eq!(member.lateral_steps(), expected[index]);
        assert_eq!(member.is_leader(), index == 0);
        index += 1;
    }
}

#[test]
fn formation_slots_of_the_largest_indices_fit() {
    let last = SteeringFormationMember { index: usize::MAX };
    let half = (usize::MAX / 2) as i64;
    assert_eq!(last.lateral_steps(), -half - 1);
    let even = SteeringFormationMember { index: usize::MAX - 1 };
    assert_eq!(even.lateral_steps(), half);
}

#[test]
fn formation_takes_the_first_followers() {
    assert_eq!(assign_member(0, 3), Some(SteeringFormationMember { index: 0 }));
    assert_eq!(assign_member(2, 3), Some(SteeringFormationMember { index: 2 }));
    assert_eq!(assign_member(3, 3), None);
    assert_eq!(assign_member(0, 0), None);
}

#[test]
fn formation_leader_keeps_its_kind() {
    let leader = SteeringFormationLeader { formation: FormationType::Line };
    assert_eq!(leader.formation, FormationType::Line);
    assert_ne!(leader.formation, FormationType::Column);
}

#[test]
fn tick_phases_run_in_order() {
    let mut seen: Vec<Phase> = Vec::new();
    let mut phase = Some(Phase::first());
    while let Some(current) = phase {
        seen.push(current);
        phase = current.next();
    }
    assert_eq!(
        seen,
        vec![Phase::Steer, Phase::Integrate, Phase::Wrap, Phase::Publish]
    );
}

#[test]
fn separation_acts_on_a_pair_in_both_orders() {
    assert_eq!(separation_pairs(&vec![true, true]), vec![(0, 1), (1, 0)]);
}

#[test]
fn separation_skips_vehicles_without_it() {
    assert_eq!(separation_pairs(&vec![true, false, true]), vec![(0, 2), (2, 0)]);
    assert_eq!(separation_pairs(&vec![false, true, false]), vec![]);
    assert_eq!(separation_pairs(&vec![true]), vec![]);
    assert_eq!(separation_pairs(&vec![]), vec![]);
}

#[test]
fn separation_scans_by_pushed_vehicle_first() {
    assert_eq!(
        separation_pairs(&vec![true, true, true]),
        vec![(0, 1), (0, 2), (1, 0), (1, 2), (2, 0), (2, 1)]
    );
}
