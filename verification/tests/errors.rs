use lance_conversion::error::{context, ErrorOrigin, HttpFailure, IoFailure};
use lance_conversion::{Error, ErrorStatus, ErrorStruct, Place};

const HERE: Place = Place {
    file: "src/a.rs",
    line: 12,
    column: 5,
};

#[test]
fn errors_are_put_in_words() {
    let error = Error::message("nothing read".to_string(), HERE);
    assert_eq!(error.to_text(), "nothing read (permanent) at src/a.rs:12:5");
    assert_eq!(error.status(), ErrorStatus::Permanent);
    assert_eq!(error.inner().location.as_deref(), Some("src/a.rs:12:5"));
    let error =
        Error::from_io(IoFailure::TimedOut, "too slow".to_string(), HERE).with_context("reading");
    assert_eq!(
        error.to_text(),
        "reading: I/O error (temporary) at src/a.rs:12:5, caused by: too slow"
    );
    let details = ErrorStruct::new("lost".to_string(), ErrorStatus::Temporary, HERE)
        .with_source("cable".to_string());
    assert_eq!(
        details.to_text(),
        "lost (temporary) at src/a.rs:12:5, caused by: cable"
    );
    assert_eq!(details.source(), Some(&"cable".to_string()));
    assert_eq!(details.clone().to_text(), details.to_text());
}

#[test]
fn errors_of_the_library_tell_their_place() {
    let refused = lance_conversion::source::SourceReadOptions {
        max_read_parallelism: 0,
    };
    let error = refused.validate().unwrap_err();
    let location = error.inner().location.clone().unwrap();
    let parts: Vec<&str> = location.split(':').collect();
    assert_eq!(parts.len(), 3);
    assert_eq!(parts[0], "src/source.rs");
    assert!(parts[1].parse::<u32>().unwrap() > 0);
    assert!(parts[2].parse::<u32>().unwrap() > 0);
    assert_eq!(
        error.to_text(),
        format!("max_read_parallelism must be positive (permanent) at {location}")
    );
    let named = error.clone().with_context("opening");
    assert_eq!(named.inner().location, Some(location));
    let elsewhere = Place {
        file: "src/b.rs",
        line: 1,
        column: 100,
    };
    assert_eq!(elsewhere.to_text(), "src/b.rs:1:100");
}

#[test]
fn statuses_are_words() {
    assert_eq!(ErrorStatus::Temporary.as_str(), "temporary");
    assert_eq!(ErrorStatus::Permanent.as_str(), "permanent");
}

#[test]
fn arguments_have_errors_of_their_own() {
    let error = Error::invalid_argument("mode".to_string(), HERE);
    assert!(matches!(error, Error::InvalidArgument(_)));
    assert!(matches!(error.clone(), Error::InvalidArgument(_)));
    assert_eq!(error.inner().message, "mode");
    assert_eq!(error.inner().source, None);
    assert_eq!(error.inner().location.as_deref(), Some("src/a.rs:12:5"));
    assert_eq!(error.status(), ErrorStatus::Permanent);
}

#[test]
fn components_report_permanent_errors() {
    let expected = [
        (ErrorOrigin::Arrow, "Arrow error"),
        (ErrorOrigin::Lance, "Lance error"),
        (ErrorOrigin::Parquet, "Parquet error"),
        (ErrorOrigin::Task, "async task error"),
        (ErrorOrigin::Url, "URL parse error"),
        (ErrorOrigin::Utf8, "UTF-8 decode error"),
    ];
    for (origin, message) in expected {
        let error = Error::from_component(origin, "why".to_string(), HERE);
        assert_eq!(
            error.to_text(),
            format!("{message} (permanent) at src/a.rs:12:5, caused by: why")
        );
    }
    assert!(matches!(
        Error::from_component(ErrorOrigin::Parquet, String::new(), HERE),
        Error::Parquet(_)
    ));
}

#[test]
fn servers_may_recover() {
    let status = |connect: bool, timeout: bool, status: Option<u16>| {
        let failure = HttpFailure {
            connect,
            timeout,
            status,
        };
        Error::from_http(failure, String::new(), HERE).status()
    };
    assert_eq!(status(true, false, None), ErrorStatus::Temporary);
    assert_eq!(status(false, true, None), ErrorStatus::Temporary);
    assert_eq!(status(false, false, Some(500)), ErrorStatus::Temporary);
    assert_eq!(status(false, false, Some(599)), ErrorStatus::Temporary);
    assert_eq!(status(false, false, Some(429)), ErrorStatus::Temporary);
    assert_eq!(status(false, false, Some(600)), ErrorStatus::Permanent);
    assert_eq!(status(false, false, Some(404)), ErrorStatus::Permanent);
    assert_eq!(status(false, false, None), ErrorStatus::Permanent);
}

#[test]
fn operations_may_succeed_later() {
    let status = |failure: IoFailure| Error::from_io(failure, String::new(), HERE).status();
    assert_eq!(status(IoFailure::Interrupted), ErrorStatus::Temporary);
    assert_eq!(status(IoFailure::WouldBlock), ErrorStatus::Temporary);
    assert_eq!(status(IoFailure::Other), ErrorStatus::Permanent);
    assert_eq!(
        Error::from_storage(true, String::new(), HERE).status(),
        ErrorStatus::Temporary
    );
    let error = Error::from_storage(false, "gone".to_string(), HERE);
    assert_eq!(
        error.to_text(),
        "OpenDAL error (permanent) at src/a.rs:12:5, caused by: gone"
    );
}

#[test]
fn failures_are_put_in_context() {
    assert_eq!(context(Ok(3), "counting").unwrap(), 3);
    let failed: lance_conversion::Result<u8> = Err(Error::message("none".to_string(), HERE));
    assert_eq!(
        context(failed, "counting").unwrap_err().inner().message,
        "counting: none"
    );
    let mut error = Error::message("a".to_string(), HERE);
    error.inner_mut().message = "b".to_string();
    assert_eq!(error.inner().message, "b");
}
