use sourisdb::cursor::Cursor;
use sourisdb::version::{Version, VersionSerError};

#[test]
fn version_tags() {
    assert_eq!(&Version::V0_1_0.to_bytes(), b"V0_1_0");
    assert_eq!(&Version::V0_2_0.to_bytes(), b"V0_2_0");
    for v in [Version::V0_1_0, Version::V0_2_0] {
        let bytes = v.to_bytes();
        let mut c = Cursor::new(&bytes).unwrap();
        assert_eq!(Version::from_bytes(&mut c), Ok(v));
        assert_eq!(c.remaining(), 0);
    }
}

#[test]
fn version_errors() {
    let mut c = Cursor::new(b"V0_1_").unwrap();
    assert_eq!(Version::from_bytes(&mut c), Err(VersionSerError::NotEnoughBytes));
    assert_eq!(c.position(), 0);
    let mut c = Cursor::new(b"V0_3_0rest").unwrap();
    assert_eq!(Version::from_bytes(&mut c), Err(VersionSerError::Invalid));
    assert_eq!(c.position(), 6);
    let mut c = Cursor::new(b"v0_1_0").unwrap();
    assert_eq!(Version::from_bytes(&mut c), Err(VersionSerError::Invalid));
}
