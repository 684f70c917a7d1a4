use write_router::health::{HealthStatus, ProbeStats};
use write_router::plan::make_plan;
use write_router::registry::IngesterEndpoint;
use HealthStatus::{Healthy, Unhealthy, Unknown};

fn endpoint(address: &str, status: HealthStatus) -> IngesterEndpoint {
    IngesterEndpoint {
        address: address.to_string(),
        status,
        stats: ProbeStats { successes: 0, attempts: 0, window_start: 0 },
    }
}

fn planned(
    snapshot: &Vec<IngesterEndpoint>,
    cursor: usize,
    replicas: usize,
) -> Vec<(usize, String)> {
    make_plan(snapshot, cursor, replicas)
        .endpoints()
        .iter()
        .map(|p| (p.index, p.address.clone()))
        .collect()
}


#[test]
fn healthy_endpoints_come_before_unknown_ones() {
    let snap = vec![
        endpoint("a", Unknown),
        endpoint("b", Healthy),
        endpoint("c", Unhealthy),
        endpoint("d", Healthy),
    ];
    assert_eq!(
        planned(&snap, 0, 3),
        vec![(1, "b".to_string()), (3, "d".to_string()), (0, "a".to_string())]
    );
    assert_eq!(planned(&snap, 0, 2), vec![(1, "b".to_string()), (3, "d".to_string())]);
    assert_eq!(planned(&snap, 0, 1), vec![(1, "b".to_string())]);
}

#[test]
fn unhealthy_endpoints_are_left_out_while_others_exist() {
    let snap = vec![endpoint("a", Unhealthy), endpoint("b", Unknown), endpoint("c", Unhealthy)];
    assert_eq!(planned(&snap, 0, 3), vec![(1, "b".to_string())]);
    assert_eq!(planned(&snap, 2, 3), vec![(1, "b".to_string())]);
}

#[test]
fn all_unhealthy_falls_back_to_every_endpoint() {
    let snap = vec![endpoint("a", Unhealthy), endpoint("b", Unhealthy), endpoint("c", Unhealthy)];
    assert_eq!(
        planned(&snap, 1, 3),
        vec![(1, "b".to_string()), (2, "c".to_string()), (0, "a".to_string())]
    );
    assert_eq!(planned(&snap, 0, 1), vec![(0, "a".to_string())]);
    let single = vec![endpoint("only", Unhealthy)];
    assert_eq!(planned(&single, 0, 1), vec![(0, "only".to_string())]);
}

#[test]
fn cursor_rotates_the_starting_point() {
    let snap = vec![
        endpoint("a", Healthy),
        endpoint("b", Healthy),
        endpoint("c", Healthy),
        endpoint("d", Unknown),
    ];
    assert_eq!(planned(&snap, 0, 2), vec![(0, "a".to_string()), (1, "b".to_string())]);
    assert_eq!(planned(&snap, 1, 2), vec![(1, "b".to_string()), (2, "c".to_string())]);
    assert_eq!(planned(&snap, 2, 2), vec![(2, "c".to_string()), (0, "a".to_string())]);
    assert_eq!(planned(&snap, 3, 2), vec![(0, "a".to_string()), (1, "b".to_string())]);
    assert_eq!(planned(&snap, 4, 2), vec![(0, "a".to_string()), (1, "b".to_string())]);
    assert_eq!(planned(&snap, 7, 1), vec![(0, "a".to_string())]);
    assert_eq!(planned(&snap, usize::MAX, 1), planned(&snap, usize::MAX % 4, 1));
}

#[test]
fn fewer_endpoints_than_replicas_gives_a_shorter_plan() {
    let snap = vec![endpoint("a", Healthy), endpoint("b", Unknown)];
    assert_eq!(planned(&snap, 0, 5), vec![(0, "a".to_string()), (1, "b".to_string())]);
    let none: Vec<IngesterEndpoint> = Vec::new();
    assert!(planned(&none, 0, 3).is_empty());
    assert!(planned(&snap, 0, 0).is_empty());
    assert_eq!(make_plan(&snap, 0, 5).len(), 2);
}

#[test]
fn plan_never_holds_an_endpoint_twice() {
    let snap = vec![
        endpoint("a", Unknown),
        endpoint("b", Healthy),
        endpoint("c", Unknown),
        endpoint("d", Healthy),
        endpoint("e", Unhealthy),
    ];
    for cursor in 0..12 {
        for replicas in 0..8 {
            let plan = planned(&snap, cursor, replicas);
            let expected = if replicas < 4 { replicas } else { 4 };
            assert_eq!(plan.len(), expected);
            for i in 0..plan.len() {
                assert!(plan[i].0 != 4);
                assert_eq!(plan[i].1, snap[plan[i].0].address);
                for j in 0..i {
                    assert!(plan[i].0 != plan[j].0);
                }
            }
        }
    }
}
