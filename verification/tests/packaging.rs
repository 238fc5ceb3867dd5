use bytes::Bytes;
use maven_toolbox::{ErrorKind, Packaging, ResolverError};
use std::io::Write;

fn archive(entries: &[(&str, &[u8])], method: zip::CompressionMethod) -> Vec<u8> {
    let mut writer = zip::ZipWriter::new(std::io::Cursor::new(Vec::new()));
    let options = zip::write::FileOptions::default().compression_method(method);
    for (name, contents) in entries {
        writer.start_file(*name, options).unwrap();
        writer.write_all(contents).unwrap();
    }
    writer.finish().unwrap().into_inner()
}

#[test]
fn jar_contents_of_a_jar_are_its_bytes() {
    let p = Packaging::Jar(Bytes::from(vec![1u8, 2, 3, 250]));
    assert_eq!(p.jar_contents().unwrap(), vec![1u8, 2, 3, 250]);
}

#[test]
fn jar_contents_of_an_empty_jar_are_empty() {
    let p = Packaging::Jar(Bytes::new());
    assert_eq!(p.jar_contents().unwrap(), Vec::<u8>::new());
}

#[test]
fn jar_contents_of_an_aar_are_its_classes_jar() {
    let data = archive(
        &[("R.txt", b"int id x"), ("classes.jar", b"class bytes"), ("res/x", b"r")],
        zip::CompressionMethod::Stored,
    );
    let p = Packaging::Aar(Bytes::from(data));
    assert_eq!(p.jar_contents().unwrap(), b"class bytes".to_vec());
}

#[test]
fn jar_contents_of_a_deflated_aar_are_decompressed() {
    let contents = vec![7u8; 4096];
    let data = archive(&[("classes.jar", &contents)], zip::CompressionMethod::Deflated);
    assert!(data.len() < contents.len());
    let p = Packaging::Aar(Bytes::from(data));
    assert_eq!(p.jar_contents().unwrap(), contents);
}

#[test]
fn aar_without_classes_jar_is_a_client_error() {
    let data = archive(&[("other.jar", b"x")], zip::CompressionMethod::Stored);
    let e = Packaging::Aar(Bytes::from(data)).jar_contents().unwrap_err();
    assert_eq!(e.kind, ErrorKind::ClientError);
    assert!(e.msg.starts_with("Invalid input data: "));
}

#[test]
fn aar_that_is_no_archive_is_a_client_error() {
    let e = Packaging::Aar(Bytes::from(b"not a zip".to_vec())).jar_contents().unwrap_err();
    assert_eq!(e.kind, ErrorKind::ClientError);
    assert!(e.msg.starts_with("Invalid input data: "));
}

#[test]
fn aar_with_damaged_entry_is_a_client_error() {
    let mut data = archive(&[("classes.jar", b"class bytes")], zip::CompressionMethod::Stored);
    let at = data.windows(11).position(|w| w == b"class bytes").unwrap();
    data[at] ^= 0xff;
    let e = Packaging::Aar(Bytes::from(data)).jar_contents().unwrap_err();
    assert_eq!(e.kind, ErrorKind::ClientError);
}

#[test]
fn unwrap_entry_maps_a_failure_to_invalid_data() {
    let e = Packaging::unwrap_entry(Err("no such entry".to_string())).unwrap_err();
    assert_eq!(e.kind, ErrorKind::ClientError);
    assert_eq!(e.msg, "Invalid input data: no such entry");
    assert_eq!(Packaging::unwrap_entry(Ok(vec![1, 2])).unwrap(), vec![1, 2]);
}

#[test]
fn delivered_tags_the_body_with_the_packaging() {
    let body = Bytes::from(vec![9u8, 8]);
    assert!(matches!(Packaging::delivered("aar", Ok(body.clone())), Some(Packaging::Aar(b)) if b == body));
    assert!(matches!(Packaging::delivered("jar", Ok(body.clone())), Some(Packaging::Jar(b)) if b == body));
    assert!(Packaging::delivered("pom", Ok(body)).is_none());
}

#[test]
fn delivered_is_nothing_for_any_transport_error() {
    assert!(Packaging::delivered("aar", Err(ResolverError::file_not_found("u"))).is_none());
    assert!(Packaging::delivered("jar", Err(ResolverError::invalid_data("u"))).is_none());
}
