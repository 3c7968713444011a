use pastebin_server::error::{PastebinError, PastebinErrorCode};
use pastebin_server::record::{FindRecordRes, Record};
use pastebin_server::time::UnixTimestamp;
use pastebin_server::utils;

#[test]
fn error_codes_and_statuses() {
    let cases = [
        (PastebinErrorCode::InternalError, 1001, 500, "InternalError"),
        (PastebinErrorCode::Unavailable, 1002, 503, "Unavailable"),
        (PastebinErrorCode::BadKey, 2001, 400, "BadKey"),
        (PastebinErrorCode::TooLongExpirations, 2002, 400, "TooLongExpirations"),
        (PastebinErrorCode::TooLongContent, 2003, 400, "TooLongContent"),
        (PastebinErrorCode::TooLongTitle, 2004, 400, "TooLongTitle"),
        (PastebinErrorCode::NotFound, 3001, 404, "NotFound"),
    ];
    for (code, wire, status, message) in cases {
        assert_eq!(code.code(), wire);
        assert_eq!(code.status(), status);
        assert_eq!(code.message_str(), message);
        let err = PastebinError::from_code(code);
        assert_eq!(err.code, code);
        assert_eq!(err.message, message);
    }
}

#[test]
fn timestamps_carry_their_seconds() {
    let t = UnixTimestamp::from_seconds(123456);
    assert_eq!(t.seconds(), 123456);
    assert_eq!(t, UnixTimestamp::from_seconds(123456));
}

#[test]
fn clock_reads_after_the_epoch() {
    let t = UnixTimestamp::now().unwrap();
    assert!(t.seconds() > 1_600_000_000);
    assert!(utils::now() > 1_600_000_000);
}

#[test]
fn find_record_res_pairs_record_and_count() {
    let record = Record {
        title: "t".to_owned(),
        lang: "go".to_owned(),
        content: "hello".to_owned(),
        saving_time_seconds: 1000,
        expiration_seconds: 60,
    };
    let res = FindRecordRes::new(record, 7);
    assert_eq!(res.title, "t");
    assert_eq!(res.lang, "go");
    assert_eq!(res.content, "hello");
    assert_eq!(res.saving_time_seconds, 1000);
    assert_eq!(res.expiration_seconds, 60);
    assert_eq!(res.view_count, 7);
}
