use resonant_engine::plan::plan_request;
use resonant_engine::plan::PlanRequest;

#[test]
fn empty_band_needs_no_planner() {
    assert_eq!(plan_request(5, 5), PlanRequest::Empty);
    assert_eq!(plan_request(6, 5), PlanRequest::Empty);
    assert_eq!(plan_request(i64::MAX, i64::MIN), PlanRequest::Empty);
}

#[test]
fn proper_band_invokes_the_planner() {
    assert_eq!(plan_request(0, 5000), PlanRequest::Invoke);
    assert_eq!(plan_request(-1, 0), PlanRequest::Invoke);
    assert_eq!(plan_request(i64::MIN, i64::MAX), PlanRequest::Invoke);
}
