use dpos_oracle::period_handler::PeriodHandler;
use dpos_oracle::Error;

#[test]
fn get_period() {
    let handler = PeriodHandler::new(100, 10, 5).unwrap();

    assert_eq!(handler.get_period(100), 0);
    assert_eq!(handler.get_period(109), 0);
    assert_eq!(handler.get_period(110), 1);
    assert_eq!(handler.get_period(121), 2);
}

#[test]
fn is_aggregate_time() {
    let handler = PeriodHandler::new(100, 10, 5).unwrap();

    (200..=204).for_each(|now| assert!(!handler.is_aggregate_time(now)));
    (205..=209).for_each(|now| assert!(handler.is_aggregate_time(now)));
}

#[test]
fn is_calculate_time() {
    let handler = PeriodHandler::new(100, 10, 5).unwrap();

    assert!(handler.is_calculate_time(None, 100));
    assert!(handler.is_calculate_time(Some(100), 110));
    assert!(!handler.is_calculate_time(Some(100), 101));
}

#[test]
fn is_source_update_needed() {
    let mut handler = PeriodHandler::new(100, 10, 5).unwrap();
    handler.update_source_time(105);

    (106..=114).for_each(|now| assert!(!handler.is_source_update_needed(now)));
    assert!(handler.is_source_update_needed(115));
}

#[test]
fn bad_period_parameters_are_rejected() {
    assert_eq!(PeriodHandler::new(100, 5, 10).unwrap_err(), Error::InvalidPeriod);
    assert_eq!(PeriodHandler::new(100, 10, 10).unwrap_err(), Error::InvalidPeriod);
    assert_eq!(PeriodHandler::new(100, 10, 0).unwrap_err(), Error::InvalidPeriod);
    assert_eq!(PeriodHandler::new(100, 0, 0).unwrap_err(), Error::InvalidPeriod);
    assert!(PeriodHandler::new(100, 10, 9).is_ok());
}

#[test]
fn aggregate_window_opens_exactly_at_the_boundary() {
    // Window of period p opens at start + (p + 1) * calc - agg.
    let handler = PeriodHandler::new(100, 10, 5).unwrap();
    for p in 0u64..20 {
        let boundary = 100 + (p + 1) * 10 - 5;
        assert!(!handler.is_aggregate_time(boundary - 1));
        assert!(handler.is_aggregate_time(boundary));
    }
}
