use billing_api::database::{
    first_schema_step, schema_step_after, schema_step_after_listing, SchemaStep,
};
use billing_api::health::readiness;

#[test]
fn ready_before_the_first_cycle() {
    assert_eq!(readiness(&vec![Ok(()), Ok(())], None, i64::MAX, u64::MAX).unwrap(), "ok");
}

#[test]
fn ready_up_to_three_intervals() {
    assert_eq!(readiness(&vec![Ok(())], Some(1000), 1180, 60).unwrap(), "ok");
    let error = readiness(&vec![Ok(())], Some(1000), 1181, 60).unwrap_err();
    assert_eq!(error.message(), "last billing cycle is too long ago");
}

#[test]
fn first_failed_check_is_told() {
    let checks = vec![Ok(()), Err("db is down".to_owned()), Err("other".to_owned())];
    let error = readiness(&checks, Some(0), 1_000_000, u64::MAX).unwrap_err();
    assert_eq!(error.message(), "readiness check failed: db is down");
}

#[test]
fn schema_steps() {
    assert_eq!(first_schema_step(true), SchemaStep::Reset);
    assert_eq!(first_schema_step(false), SchemaStep::ListPending);
    assert_eq!(schema_step_after_listing(0), SchemaStep::Ready);
    assert_eq!(schema_step_after_listing(3), SchemaStep::ApplyPending);
    assert_eq!(schema_step_after(SchemaStep::Reset), SchemaStep::Ready);
    assert_eq!(schema_step_after(SchemaStep::ApplyPending), SchemaStep::Ready);
}
