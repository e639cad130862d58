//! Format dispatch by file extension.

use vadeen_osm::osm_io::{format_of_path, FileFormat};

#[test]
fn file_format_from_path() {
    let format = format_of_path("test.o5m");
    assert_eq!(format, Ok(FileFormat::O5m));

    let format = format_of_path("test.osm");
    assert_eq!(format, Ok(FileFormat::Xml));

    let format = format_of_path("./path/file.o5m");
    assert_eq!(format, Ok(FileFormat::O5m));
}

#[test]
fn file_format_from_str() {
    let format = FileFormat::from_ext("o5m");
    assert_eq!(format, Ok(FileFormat::O5m));

    let format = FileFormat::from_ext("osm");
    assert_eq!(format, Ok(FileFormat::Xml));

    assert_eq!(FileFormat::from("o5m"), Some(FileFormat::O5m));
    assert_eq!(FileFormat::from("pbf"), None);
}

#[test]
fn file_format_from_string() {
    let format = FileFormat::from_ext("o5m".to_owned().as_str());
    assert_eq!(format, Ok(FileFormat::O5m));

    let format = FileFormat::from_ext("osm".to_owned().as_str());
    assert_eq!(format, Ok(FileFormat::Xml));
}

#[test]
fn read_invalid_format() {
    let err = format_of_path("osm.invalid").unwrap_err();
    assert_eq!(err.describe(), "'invalid' is not a valid osm file format.");
}

#[test]
fn missing_extension_is_rejected() {
    let err = format_of_path("mapfile").unwrap_err();
    assert_eq!(err.describe(), "Could not determine format of 'mapfile'.");
}
