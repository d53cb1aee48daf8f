use sakuin::status::{format_status, parse_status, ReadingStatus};

#[test]
fn parse_status_accepts_documented_aliases() {
    assert_eq!(parse_status("planning").unwrap(), ReadingStatus::Planning);
    assert_eq!(parse_status("reading").unwrap(), ReadingStatus::Reading);
    assert_eq!(parse_status("completed").unwrap(), ReadingStatus::Completed);
    assert_eq!(parse_status("onhold").unwrap(), ReadingStatus::OnHold);
    assert_eq!(
        parse_status("not_interested").unwrap(),
        ReadingStatus::NotInterested
    );
    assert!(parse_status("later").is_err());
}

#[test]
fn format_status_maps_known_and_unknown_codes() {
    assert_eq!(format_status(ReadingStatus::Planning.code()), "planning");
    assert_eq!(format_status(ReadingStatus::Reading.code()), "reading");
    assert_eq!(format_status(ReadingStatus::Completed.code()), "completed");
    assert_eq!(format_status(ReadingStatus::OnHold.code()), "on_hold");
    assert_eq!(format_status(ReadingStatus::Dropped.code()), "dropped");
    assert_eq!(
        format_status(ReadingStatus::NotInterested.code()),
        "not_interested"
    );
    assert_eq!(format_status(999), "unknown");
}

const ALL: [ReadingStatus; 7] = [
    ReadingStatus::Unspecified,
    ReadingStatus::Planning,
    ReadingStatus::Reading,
    ReadingStatus::Completed,
    ReadingStatus::OnHold,
    ReadingStatus::Dropped,
    ReadingStatus::NotInterested,
];

#[test]
fn codes_round_trip() {
    for st in ALL {
        assert_eq!(ReadingStatus::from_code(st.code()), Some(st));
    }
    assert_eq!(ReadingStatus::from_code(7), None);
    assert_eq!(ReadingStatus::from_code(-1), None);
}

#[test]
fn formatted_names_parse_back() {
    for st in ALL.into_iter().skip(1) {
        assert_eq!(parse_status(format_status(st.code())).unwrap(), st);
    }
    assert_eq!(format_status(ReadingStatus::Unspecified.code()), "unknown");
}

#[test]
fn parse_status_ignores_case_and_keeps_input_in_error() {
    assert_eq!(parse_status("PLANNING").unwrap(), ReadingStatus::Planning);
    assert_eq!(parse_status("On_Hold").unwrap(), ReadingStatus::OnHold);
    assert_eq!(parse_status("dropped").unwrap(), ReadingStatus::Dropped);
    assert_eq!(parse_status("NotInterested").unwrap(), ReadingStatus::NotInterested);
    let err = parse_status("Later").unwrap_err();
    assert_eq!(err.input, "Later");
    assert_eq!(
        err.message(),
        "Invalid status: Later. Use: planning, reading, completed, on_hold, dropped, not_interested"
    );
    assert!(parse_status("on hold").is_err());
    assert!(parse_status("").is_err());
}
