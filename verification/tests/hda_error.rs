use redox_drivers::hda::error::Error;

#[test]
fn error_descriptions() {
    assert_eq!(Error::CorbRPResetTimeout.description(), "Corb RP Reset Timeout");
    assert_eq!(Error::CorbMemoryError.description(), "Corb Memory Error");
}

#[test]
fn error_display_text() {
    assert_eq!(Error::CorbRPResetTimeout.to_string(), "CorbRPResetTimeout");
    assert_eq!(Error::CorbMemoryError.to_string(), "CorbMemoryError");
    assert_eq!(format!("{:?}", Error::CorbMemoryError), "CorbMemoryError");
}
