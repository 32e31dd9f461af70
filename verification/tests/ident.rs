use dotdotvote::error::{CoreError, ParamError};
use dotdotvote::ident::{
    created_body, get_uuid_param, judge_uuid_param, poll_path, results_path,
};

const SAMPLE: u128 = 0x550e8400_e29b_41d4_a716_446655440000;

#[test]
fn a_missing_parameter_is_reported_as_missing() {
    assert_eq!(get_uuid_param(None), Err(ParamError::Missing));
}

#[test]
fn text_that_is_no_uuid_is_reported_as_invalid() {
    assert_eq!(get_uuid_param(Some("nonsense")), Err(ParamError::Invalid));
    assert_eq!(get_uuid_param(Some("")), Err(ParamError::Invalid));
    assert_eq!(
        get_uuid_param(Some("550e8400-e29b-41d4-a716-44665544000")),
        Err(ParamError::Invalid)
    );
    assert_eq!(
        get_uuid_param(Some("550e8400-e29b-41d4-a716-44665544000g")),
        Err(ParamError::Invalid)
    );
}

#[test]
fn a_hyphenated_uuid_is_read_as_its_bits() {
    assert_eq!(get_uuid_param(Some("550e8400-e29b-41d4-a716-446655440000")), Ok(SAMPLE));
    assert_eq!(
        get_uuid_param(Some("a1a2a3a4-b1b2-c1c2-d1d2-d3d4d5d6d7d8")),
        Ok(0xa1a2a3a4b1b2c1c2d1d2d3d4d5d6d7d8)
    );
}

#[test]
fn the_other_text_forms_of_a_uuid_are_read_too() {
    assert_eq!(get_uuid_param(Some("550e8400e29b41d4a716446655440000")), Ok(SAMPLE));
    assert_eq!(get_uuid_param(Some("550E8400-E29B-41D4-A716-446655440000")), Ok(SAMPLE));
    assert_eq!(
        get_uuid_param(Some("urn:uuid:550e8400-e29b-41d4-a716-446655440000")),
        Ok(SAMPLE)
    );
}

#[test]
fn what_was_read_is_judged_case_by_case() {
    assert_eq!(judge_uuid_param(None), Err(ParamError::Missing));
    assert_eq!(judge_uuid_param(Some(None)), Err(ParamError::Invalid));
    assert_eq!(judge_uuid_param(Some(Some(7))), Ok(7));
    assert_eq!(judge_uuid_param(Some(Some(0))), Ok(0));
}

#[test]
fn a_poll_path_holds_the_canonical_text() {
    assert_eq!(poll_path(SAMPLE), "/poll/550e8400-e29b-41d4-a716-446655440000");
    assert_eq!(poll_path(0), "/poll/00000000-0000-0000-0000-000000000000");
    assert_eq!(poll_path(u128::MAX), "/poll/ffffffff-ffff-ffff-ffff-ffffffffffff");
    assert_eq!(
        poll_path(0x0123456789abcdef0123456789abcdef),
        "/poll/01234567-89ab-cdef-0123-456789abcdef"
    );
}

#[test]
fn a_results_path_ends_in_results() {
    assert_eq!(
        results_path(SAMPLE),
        "/poll/550e8400-e29b-41d4-a716-446655440000/results"
    );
}

#[test]
fn the_body_for_a_created_poll_is_a_json_object() {
    assert_eq!(
        created_body(SAMPLE),
        "{\"poll\":\"550e8400-e29b-41d4-a716-446655440000\"}"
    );
}

#[test]
fn a_written_reference_reads_back() {
    let path = poll_path(0xa1a2a3a4b1b2c1c2d1d2d3d4d5d6d7d8);
    let text = &path["/poll/".len()..];
    assert_eq!(text.len(), 36);
    assert_eq!(get_uuid_param(Some(text)), Ok(0xa1a2a3a4b1b2c1c2d1d2d3d4d5d6d7d8));
}

#[test]
fn parameter_errors_are_bad_requests() {
    assert_eq!(ParamError::Missing.status(), 400);
    assert_eq!(ParamError::Invalid.status(), 400);
    assert_eq!(ParamError::Missing.message(), "No uuid specified");
    assert_eq!(ParamError::Invalid.message(), "Invalid uuid specified");
}

#[test]
fn each_error_has_its_status() {
    assert_eq!(CoreError::Validation.status(), 400);
    assert_eq!(CoreError::NotFound.status(), 404);
    assert_eq!(CoreError::Store.status(), 500);
}
