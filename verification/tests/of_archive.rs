use std::io::{Cursor, Write};
use taphle::of_archive::offline_config_from_archive;
use zip::write::SimpleFileOptions;

fn archive(entries: &[(&str, &str)]) -> Vec<u8> {
    let mut writer = zip::ZipWriter::new(Cursor::new(Vec::new()));
    let options = SimpleFileOptions::default().compression_method(zip::CompressionMethod::Stored);
    for (name, text) in entries {
        writer.start_file(*name, options).unwrap();
        writer.write_all(text.as_bytes()).unwrap();
    }
    writer.finish().unwrap().into_inner()
}

#[test]
fn the_offline_config_is_found_inside_an_ipa() {
    let bytes = archive(&[
        ("Payload/Game.app/Info.plist", "plist"),
        ("Payload/Game.app/openfeint_offline_config.xml", "<config/>"),
        ("Payload/Other.app/openfeint_offline_config.xml", "second"),
    ]);
    assert_eq!(offline_config_from_archive(bytes), Some("<config/>".to_string()));
}

#[test]
fn an_archive_without_the_config_has_none() {
    let bytes = archive(&[("Payload/Game.app/Info.plist", "plist")]);
    assert_eq!(offline_config_from_archive(bytes), None);
}

#[test]
fn bytes_that_are_no_archive_have_no_config() {
    assert_eq!(offline_config_from_archive(b"not a zip".to_vec()), None);
}
