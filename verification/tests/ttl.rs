use buck2::ttl::manifold_event_log_ttl;
use buck2::ttl::manifold_event_log_ttl_impl;
use buck2::ttl::schedule_type;
use buck2::ttl::Ttl;

fn robots() -> Vec<String> {
    vec!["twsvcscm".to_owned()]
}

#[test]
fn test_is_a_user() {
    assert_eq!(
        manifold_event_log_ttl_impl(
            &robots(),
            Some("random_person".to_owned()),
            Some("continuous".to_owned()),
            None
        )
        .as_secs(),
        365 * 24 * 60 * 60,
    );
}

#[test]
fn test_not_a_user() {
    assert_eq!(
        manifold_event_log_ttl_impl(&robots(), Some("twsvcscm".to_owned()), None, None).as_secs(),
        60 * 24 * 60 * 60,
    );
}

#[test]
fn test_not_a_user_and_not_continuous() {
    assert_eq!(
        manifold_event_log_ttl_impl(
            &robots(),
            Some("twsvcscm".to_owned()),
            Some("foo".to_owned()),
            None
        )
        .as_secs(),
        28 * 24 * 60 * 60,
    );
}

#[test]
fn test_not_a_user_and_continuous() {
    assert_eq!(
        manifold_event_log_ttl_impl(
            &robots(),
            Some("twsvcscm".to_owned()),
            Some("continuous".to_owned()),
            None
        )
        .as_secs(),
        60 * 24 * 60 * 60,
    );
}

#[test]
fn a_test_sets_the_ttl() {
    assert_eq!(manifold_event_log_ttl_impl(&robots(), None, None, Some(7)).as_secs(), 7);
    assert_eq!(Ttl::from_days(2).as_secs(), 172800);
}

#[test]
fn robots_are_known_by_name() {
    let user = |name: &str| {
        manifold_event_log_ttl(Ok(Some(name.to_owned())), Ok(Some("diff".to_owned())), Ok(None))
            .unwrap()
            .as_secs()
    };
    for robot in ["twsvcscm", "svcscm", "facebook", "root", "svc-si_admin", "svc-fbsi_datamgr"] {
        assert_eq!(user(robot), 28 * 86400);
    }
    assert_eq!(user("somebody"), 365 * 86400);
}

#[test]
fn unknown_user_counts_as_none_and_errors_count() {
    assert_eq!(
        manifold_event_log_ttl(Err("no user".to_owned()), Ok(None), Ok(None)).unwrap().as_secs(),
        60 * 86400
    );
    assert_eq!(
        manifold_event_log_ttl(Ok(None), Err("bad".to_owned()), Err("worse".to_owned())),
        Err("bad".to_owned())
    );
    assert_eq!(
        manifold_event_log_ttl(Ok(None), Ok(None), Err("worse".to_owned())),
        Err("worse".to_owned())
    );
}

#[test]
fn first_variable_decides_the_schedule() {
    assert_eq!(
        schedule_type(Ok(Some("a".to_owned())), Ok(Some("b".to_owned()))),
        Ok(Some("a".to_owned()))
    );
    assert_eq!(schedule_type(Ok(None), Ok(Some("b".to_owned()))), Ok(Some("b".to_owned())));
    assert_eq!(schedule_type(Err("x".to_owned()), Ok(None)), Err("x".to_owned()));
}
