use maimap::error::AppError;
use maimap::query::{geo_search_requested, paginate_results, GeoQueryError, PageError, SortMethod};
use maimap::readiness::{poll_action, PollAction, MAX_LOAD_ATTEMPTS, MIN_ARCADES, POLLING_INTERVAL_MS};

#[test]
fn pages_are_cut_from_one() {
    let v: Vec<i32> = (1..=10).collect();
    assert_eq!(paginate_results(&v, Some(1), Some(3)).unwrap(), vec![1, 2, 3]);
    assert_eq!(paginate_results(&v, Some(4), Some(3)).unwrap(), vec![10]);
    assert_eq!(paginate_results(&v, Some(5), Some(3)).unwrap(), Vec::<i32>::new());
    assert_eq!(paginate_results(&v, None, None).unwrap(), v);
}

#[test]
fn page_requests_are_checked() {
    let v = vec![1, 2, 3];
    assert_eq!(paginate_results(&v, Some(1), None), Err(PageError::Incomplete));
    assert_eq!(paginate_results(&v, None, Some(2)), Err(PageError::Incomplete));
    assert_eq!(paginate_results(&v, Some(0), Some(2)), Err(PageError::NotPositive));
    assert_eq!(paginate_results(&v, Some(1), Some(0)), Err(PageError::NotPositive));
}

#[test]
fn huge_page_index_is_empty() {
    let v = vec![1, 2, 3];
    assert_eq!(paginate_results(&v, Some(u32::MAX), Some(u32::MAX)).unwrap(), Vec::<i32>::new());
}

#[test]
fn geo_search_needs_all_three() {
    assert_eq!(geo_search_requested(true, true, true), Ok(true));
    assert_eq!(geo_search_requested(false, false, false), Ok(false));
    assert_eq!(geo_search_requested(true, true, false), Err(GeoQueryError::Incomplete));
    assert_eq!(geo_search_requested(false, true, false), Err(GeoQueryError::Incomplete));
}

#[test]
fn validation_errors_are_bad_requests() {
    assert_eq!(AppError::Validation("x".to_string()).http_status(), 400);
    assert_eq!(AppError::from_page_error(PageError::Incomplete).http_status(), 400);
    assert_eq!(AppError::Database("down".to_string()).http_status(), 500);
    assert_eq!(AppError::Scrape("few".to_string()).http_status(), 500);
}

#[test]
fn readiness_decisions() {
    assert_eq!(poll_action(1, MIN_ARCADES, 0), PollAction::Ready);
    assert_eq!(poll_action(1, 2500, 95_000), PollAction::Ready);
    assert_eq!(poll_action(1, 10, 1_000), PollAction::Wait(POLLING_INTERVAL_MS));
    assert_eq!(poll_action(1, 10, 90_000), PollAction::Wait(2_000));
    assert_eq!(poll_action(1, 1999, 90_001), PollAction::Reload);
    assert_eq!(poll_action(MAX_LOAD_ATTEMPTS, 1999, 90_001), PollAction::GiveUp);
}

#[test]
fn sort_parameter_is_read() {
    assert_eq!(SortMethod::from_query(Some("Distance")), SortMethod::Distance);
    assert_eq!(SortMethod::from_query(Some("Pinyin")), SortMethod::Pinyin);
    assert_eq!(SortMethod::from_query(Some("distance")), SortMethod::Id);
    assert_eq!(SortMethod::from_query(None), SortMethod::Id);
}
