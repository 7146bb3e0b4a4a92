use google_cloud_gax::grpc::{Code, Status};
use ordered_pubsub::error::{Error, Fault, CODE_ALREADY_EXISTS, CODE_CANCELLED, CODE_NOT_FOUND};

fn fault(code: i32, message: &str) -> Fault {
    Fault { code, message: message.to_string() }
}

#[test]
fn fault_reads_code_and_message_of_a_status() {
    let status = Status::new(Code::Unavailable, "broker is down");
    let read = Fault::from_status(&status);
    assert_eq!(read.code, 14);
    assert_eq!(read.message, "broker is down");
}

#[test]
fn fault_reads_every_code_in_range() {
    for code in 0..=16 {
        let status = Status::new(Code::from_i32(code), "x");
        let read = Fault::from_status(&status);
        assert_eq!(read.code, code);
        assert!(0 <= read.code && read.code <= 16);
    }
}

#[test]
fn code_constants_are_the_grpc_numbers() {
    assert_eq!(CODE_ALREADY_EXISTS, Code::AlreadyExists as i32);
    assert_eq!(CODE_NOT_FOUND, Code::NotFound as i32);
    assert_eq!(CODE_CANCELLED, Code::Cancelled as i32);
}

#[test]
fn fault_of_an_error_is_what_a_transport_reports() {
    assert_eq!(Error::Transport(fault(14, "down")).fault(), fault(14, "down"));
    assert_eq!(Error::PublishFailed(fault(13, "oops")).fault(), fault(13, "oops"));
    assert_eq!(Error::AlreadyExists.fault(), fault(6, ""));
    assert_eq!(Error::NotFound.fault(), fault(5, ""));
    assert_eq!(Error::Closed.fault(), fault(1, ""));
}

#[test]
fn classify_of_a_fault_keeps_the_code() {
    for code in 0..=16 {
        assert_eq!(Error::classify(fault(code, "text")).fault().code, code);
    }
}

#[test]
fn classify_already_exists() {
    assert_eq!(Error::classify(fault(6, "topic exists")), Error::AlreadyExists);
}

#[test]
fn classify_not_found() {
    assert_eq!(Error::classify(fault(5, "no such topic")), Error::NotFound);
}

#[test]
fn classify_other_codes_keep_the_fault() {
    for code in [0, 1, 2, 3, 4, 7, 8, 9, 10, 11, 12, 13, 14, 15, 16] {
        assert_eq!(Error::classify(fault(code, "why")), Error::Transport(fault(code, "why")));
    }
}

#[test]
fn from_status_sorts_a_status() {
    assert_eq!(Error::from_status(&Status::already_exists("there")), Error::AlreadyExists);
    assert_eq!(Error::from_status(&Status::not_found("gone")), Error::NotFound);
    assert_eq!(
        Error::from_status(&Status::unauthenticated("no token")),
        Error::Transport(fault(16, "no token"))
    );
    assert_eq!(
        Error::from_status(&Status::cancelled("closed")),
        Error::Transport(fault(1, "closed"))
    );
}

#[test]
fn duplicate_is_equal() {
    let errors = [
        Error::Transport(fault(14, "down")),
        Error::AlreadyExists,
        Error::NotFound,
        Error::Closed,
        Error::PublishFailed(fault(13, "oops")),
    ];
    for error in errors.iter() {
        assert_eq!(&error.duplicate(), error);
    }
    assert_eq!(fault(3, "bad").duplicate(), fault(3, "bad"));
}

#[test]
fn is_already_exists_only_for_that_variant() {
    assert!(Error::AlreadyExists.is_already_exists());
    assert!(!Error::NotFound.is_already_exists());
    assert!(!Error::Closed.is_already_exists());
    assert!(!Error::Transport(fault(6, "")).is_already_exists());
    assert!(!Error::PublishFailed(fault(6, "")).is_already_exists());
}

#[test]
fn resource_exhausted_is_the_grpc_number() {
    assert_eq!(ordered_pubsub::error::CODE_RESOURCE_EXHAUSTED, Code::ResourceExhausted as i32);
}
