use vkcore::matcher::{match_requests, Grant, Infeasible, ResourcePool, ResourceRequest};

const GRAPHICS: u32 = 1;
const COMPUTE: u32 = 2;
const TRANSFER: u32 = 4;

fn pool(mask: u32, capacity: u32) -> ResourcePool {
    ResourcePool { capability_mask: mask, capacity, used: 0 }
}

fn request(mask: u32, count: u32, exclusive: bool) -> ResourceRequest {
    ResourceRequest { capability_mask: mask, count, exclusive }
}

#[test]
fn shared_capacity_is_checked_globally() {
    let pools = vec![pool(GRAPHICS, 4)];
    let requests = vec![request(GRAPHICS, 3, false), request(GRAPHICS, 2, false)];
    assert!(match_requests(&pools, &vec![requests[0]]).is_ok());
    assert!(match_requests(&pools, &vec![requests[1]]).is_ok());
    assert_eq!(match_requests(&pools, &requests), Err(Infeasible));
}

#[test]
fn ties_go_to_the_lowest_index() {
    let pools = vec![pool(GRAPHICS, 2), pool(GRAPHICS, 2)];
    let requests = vec![request(GRAPHICS, 2, false)];
    for _ in 0..3 {
        assert_eq!(match_requests(&pools, &requests), Ok(vec![Grant { pool: 0, units: 2 }]));
    }
}

#[test]
fn exclusive_request_refuses_superset_pool() {
    let pools = vec![pool(GRAPHICS | COMPUTE, 4)];
    let requests = vec![request(GRAPHICS, 1, true)];
    assert_eq!(match_requests(&pools, &requests), Err(Infeasible));
    let shared = vec![request(GRAPHICS, 1, false)];
    assert_eq!(match_requests(&pools, &shared), Ok(vec![Grant { pool: 0, units: 1 }]));
}

#[test]
fn exclusive_request_takes_exact_pool() {
    let pools = vec![pool(GRAPHICS | COMPUTE | TRANSFER, 4), pool(TRANSFER, 1)];
    let requests = vec![request(TRANSFER, 1, true)];
    assert_eq!(match_requests(&pools, &requests), Ok(vec![Grant { pool: 1, units: 1 }]));
}

#[test]
fn least_loaded_pool_is_preferred() {
    let pools = vec![pool(GRAPHICS | COMPUTE, 4), pool(COMPUTE, 4)];
    let requests = vec![request(COMPUTE, 1, false), request(COMPUTE, 1, false), request(COMPUTE, 1, false)];
    assert_eq!(
        match_requests(&pools, &requests),
        Ok(vec![
            Grant { pool: 0, units: 1 },
            Grant { pool: 1, units: 1 },
            Grant { pool: 0, units: 1 },
        ])
    );
}

#[test]
fn prior_usage_counts_against_capacity() {
    let pools = vec![ResourcePool { capability_mask: GRAPHICS, capacity: 4, used: 3 }, pool(GRAPHICS, 1)];
    let requests = vec![request(GRAPHICS, 1, false), request(GRAPHICS, 1, false)];
    assert_eq!(
        match_requests(&pools, &requests),
        Ok(vec![Grant { pool: 1, units: 1 }, Grant { pool: 0, units: 1 }])
    );
    let over = vec![ResourcePool { capability_mask: GRAPHICS, capacity: 1, used: 5 }];
    assert_eq!(match_requests(&over, &vec![request(GRAPHICS, 0, false)]), Err(Infeasible));
}

#[test]
fn empty_requests_always_match() {
    assert_eq!(match_requests(&Vec::new(), &Vec::new()), Ok(Vec::new()));
    assert_eq!(match_requests(&vec![pool(GRAPHICS, 0)], &Vec::new()), Ok(Vec::new()));
}

#[test]
fn no_pools_means_infeasible() {
    assert_eq!(match_requests(&Vec::new(), &vec![request(GRAPHICS, 1, false)]), Err(Infeasible));
}

#[test]
fn large_counts_do_not_overflow() {
    let pools = vec![ResourcePool { capability_mask: GRAPHICS, capacity: u32::MAX, used: u32::MAX - 1 }];
    assert_eq!(match_requests(&pools, &vec![request(GRAPHICS, u32::MAX, false)]), Err(Infeasible));
    assert_eq!(match_requests(&pools, &vec![request(GRAPHICS, 1, false)]), Ok(vec![Grant { pool: 0, units: 1 }]));
}
