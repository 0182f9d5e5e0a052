use bmp_decoder::LoadError;

#[test]
fn messages_name_the_failure() {
    assert_eq!(LoadError::UnexpectedEof.message(), "unexpected end of file");
    assert_eq!(LoadError::BadMagic.message(), "invalid magic number in BMP header");
    assert_eq!(
        LoadError::UnsupportedDib.message(),
        "unsupported DIP block (only BITMAPINFOHEADER is supported)"
    );
    assert_eq!(
        LoadError::UnsupportedBpp.message(),
        "unsupported bits per pixel (only 4 bpp supported)"
    );
}

#[test]
fn stream_fault_message_carries_the_cause() {
    let error = LoadError::Io(String::from("permission denied"));
    assert_eq!(error.message(), "unexpected IO error: permission denied");
    assert_eq!(LoadError::Io(String::new()).message(), "unexpected IO error: ");
}

#[test]
fn error_kinds_are_told_apart() {
    assert_ne!(LoadError::UnexpectedEof, LoadError::BadMagic);
    assert_ne!(LoadError::UnsupportedDib, LoadError::UnsupportedBpp);
    assert_ne!(LoadError::Io(String::from("a")), LoadError::Io(String::from("b")));
    assert_eq!(format!("{:?}", LoadError::BadMagic), "BadMagic");
    assert_eq!(format!("{:?}", LoadError::UnexpectedEof), "UnexpectedEof");
    assert_eq!(format!("{:?}", LoadError::UnsupportedDib), "UnsupportedDib");
    assert_eq!(format!("{:?}", LoadError::UnsupportedBpp), "UnsupportedBpp");
}
