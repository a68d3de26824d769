use sourisdb::client::{
    accept_status, address, created_after, created_from_status, flag_text, is_success,
    judge_health, Health, Probe, STATUS_CREATED, STATUS_OK,
};

#[test]
fn success_is_two_hundred_to_two_ninety_nine() {
    assert!(!is_success(199));
    assert!(is_success(200));
    assert!(is_success(204));
    assert!(is_success(299));
    assert!(!is_success(300));
    assert!(!is_success(404));
    assert_eq!(accept_status(201), Ok(201));
    assert_eq!(accept_status(500), Err(500));
    for code in 0..1000u16 {
        let status = http::StatusCode::from_u16(code);
        if let Ok(status) = status {
            assert_eq!(is_success(code), status.is_success());
        }
    }
}

#[test]
fn created_or_not() {
    assert_eq!(created_from_status(STATUS_OK), Some(false));
    assert_eq!(created_from_status(STATUS_CREATED), Some(true));
    assert_eq!(created_from_status(202), None);
    assert_eq!(STATUS_OK, http::StatusCode::OK.as_u16());
    assert_eq!(STATUS_CREATED, http::StatusCode::CREATED.as_u16());
}

#[test]
fn health() {
    assert_eq!(judge_health(Probe::Answered(200)), Health::Healthy);
    assert_eq!(judge_health(Probe::Answered(503)), Health::NotHealthy(503));
    assert_eq!(judge_health(Probe::Failed(Some(200))), Health::Healthy);
    assert_eq!(judge_health(Probe::Failed(Some(404))), Health::NotHealthy(404));
    assert_eq!(judge_health(Probe::Failed(None)), Health::Unreachable);
}

#[test]
fn addresses() {
    assert_eq!(
        address("localhost", 2256, "/healthcheck"),
        "http://localhost:2256/healthcheck"
    );
    assert_eq!(address("db", 0, "/v1/get_db"), "http://db:0/v1/get_db");
    assert_eq!(address("h", u32::MAX, ""), format!("http://h:{}", u32::MAX));
    assert_eq!(flag_text(true), "true");
    assert_eq!(flag_text(false), "false");
}

#[test]
fn created_only_after_success() {
    assert_eq!(created_after(200), Ok(Some(false)));
    assert_eq!(created_after(201), Ok(Some(true)));
    assert_eq!(created_after(204), Ok(None));
    assert_eq!(created_after(404), Err(404));
    assert_eq!(created_after(199), Err(199));
    assert_eq!(created_after(300), Err(300));
}
