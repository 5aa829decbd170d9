use garage::api::common_error::CommonError;
use garage::api::encoding::{xml_encode_key, xml_escape};
use garage::api::k2v_error::Error as K2vError;
use garage::api::s3_error::Error as S3Error;
use garage::api::signature_error::SignatureError;
use garage::model::error::{Error as HelperError, OkOrBadRequest};
use garage::net::error::{
    io_errorkind_to_u8, log_err_line, net_error_message, u8_to_io_errorkind, IoErrorKind, NetError,
};
use garage::rpc::{err_to_msg, Message};
use garage::util::error::Error as CoreError;
use garage::util::text::u64_to_dec;

#[test]
fn s3_error_codes_statuses_and_body() {
    assert_eq!(S3Error::NoSuchKey.aws_code(), "NoSuchKey");
    assert_eq!(S3Error::NoSuchKey.http_status_code(), 404);
    assert_eq!(S3Error::PreconditionFailed.http_status_code(), 412);
    assert_eq!(S3Error::EntityTooSmall.aws_code(), "EntityTooSmall");
    assert_eq!(S3Error::EntityTooSmall.http_status_code(), 400);
    assert_eq!(S3Error::NotImplemented("ListParts".to_string()).http_status_code(), 501);
    assert_eq!(S3Error::InvalidRange(1234).http_status_code(), 416);
    assert_eq!(
        S3Error::Common(CommonError::Forbidden("no".to_string())).aws_code(),
        "AccessDenied"
    );

    let headers = S3Error::InvalidRange(90).add_http_headers();
    assert_eq!(headers.len(), 3);
    assert_eq!(headers[0], ("Content-Type".to_string(), "application/xml".to_string()));
    assert_eq!(headers[2], ("Content-Range".to_string(), "bytes */90".to_string()));

    let body = S3Error::NoSuchKey.http_body("garage", "/bucket/a<b");
    assert_eq!(
        body,
        "<?xml version=\"1.0\" encoding=\"UTF-8\"?>\n<Error><Code>NoSuchKey</Code>\
         <Message>Key not found</Message><Resource>/bucket/a&lt;b</Resource>\
         <Region>garage</Region></Error>"
    );
}

#[test]
fn signature_errors_lift_into_both_front_ends() {
    let e = SignatureError::InvalidDigest("bad".to_string());
    match S3Error::from_signature_error(e) {
        S3Error::InvalidDigest(m) => assert_eq!(m, "bad"),
        _ => panic!("digest failures keep their kind in the S3 API"),
    }
    let e = SignatureError::InvalidDigest("bad".to_string());
    match K2vError::from_signature_error(e) {
        K2vError::Common(CommonError::BadRequest(m)) => assert_eq!(m, "bad"),
        _ => panic!("digest failures surface as bad requests in the K2V API"),
    }
    assert_eq!(K2vError::NoSuchKey.code(), "NoSuchKey");
    assert_eq!(K2vError::NoSuchKey.http_status_code(), 404);
    assert_eq!(K2vError::NotAcceptable("json".to_string()).http_status_code(), 406);
    assert_eq!(K2vError::InvalidBase64("x".to_string()).code(), "InvalidBase64");
}

#[test]
fn io_error_kinds_round_trip_on_the_wire() {
    let kinds = [
        IoErrorKind::ConnectionAborted,
        IoErrorKind::BrokenPipe,
        IoErrorKind::WouldBlock,
        IoErrorKind::InvalidInput,
        IoErrorKind::InvalidData,
        IoErrorKind::TimedOut,
        IoErrorKind::Interrupted,
        IoErrorKind::UnexpectedEof,
        IoErrorKind::OutOfMemory,
        IoErrorKind::ConnectionReset,
        IoErrorKind::Other,
    ];
    for kind in kinds {
        assert_eq!(u8_to_io_errorkind(io_errorkind_to_u8(kind)), kind);
    }
    assert_eq!(u8_to_io_errorkind(42), IoErrorKind::Other);
    assert_eq!(io_errorkind_to_u8(IoErrorKind::Other), 100);
}

#[test]
fn dismissed_failures_log_their_description() {
    assert_eq!(log_err_line(&Ok(()), "while syncing"), None);
    let failed: Result<(), NetError> = Err(NetError::ConnectionClosed);
    assert_eq!(
        log_err_line(&failed, "while syncing").as_deref(),
        Some("Error: while syncing: Connection closed"),
    );
    assert_eq!(
        net_error_message(&NetError::Remote(IoErrorKind::TimedOut, "slow peer".to_string())),
        "Remote error (TimedOut): slow peer",
    );
    assert_eq!(
        net_error_message(&NetError::Io("disk full".to_string())),
        "IO error: disk full",
    );
}

#[test]
fn handler_failures_become_error_replies() {
    match err_to_msg(Err(CoreError::Timeout)) {
        Message::Error(m) => assert_eq!(m, "Timeout"),
        _ => panic!("a failure must answer with an error message"),
    }
    match err_to_msg(Ok(Message::Ping)) {
        Message::Ping => {}
        _ => panic!("a reply must pass through unchanged"),
    }
}

#[test]
fn missing_values_become_bad_requests() {
    let present: Option<u32> = Some(7);
    assert!(matches!(present.ok_or_bad_request("field"), Ok(7)));
    let absent: Option<u32> = None;
    match absent.ok_or_bad_request("field") {
        Err(HelperError::BadRequest(_)) => {}
        _ => panic!("a missing value must be a bad request"),
    }
    let failed: Result<u32, String> = Err("boom".to_string());
    assert!(matches!(failed.ok_or_bad_request("field"), Err(HelperError::BadRequest(_))));
}

#[test]
fn xml_escaping_and_key_encoding() {
    assert_eq!(xml_escape("a<b>\"c\""), "a&lt;b&gt;&quot;c&quot;");
    assert_eq!(xml_encode_key("a<b", false), "a&lt;b");
    assert_eq!(xml_encode_key("a/b c", true), "a%2Fb%20c");
    assert_eq!(garage::api::encoding::uri_encode("a/b c", false), "a/b%20c");
    assert_eq!(u64_to_dec(0), "0");
    assert_eq!(u64_to_dec(90210), "90210");
}
