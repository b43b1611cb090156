use bunnyhop::error::HopError;

#[test]
fn every_error_has_its_message() {
    assert_eq!(HopError::Name.message(), "[error] Unable to disambiguate file/directory.");
    assert_eq!(HopError::NotFound.message(), "[error] Nothing matches the request.");
    assert_eq!(
        HopError::UnknownTarget.message(),
        "[error] Unable to find a shortcut or a visited location of that name."
    );
    assert_eq!(HopError::Io.message(), "[error] Unable to read the saved state.");
}
