use gbuild::config::Resource;

#[test]
fn missing_src_dir_fails_construction() {
    let b = Resource::builder().definition_file("bundle.xml");
    assert_eq!(b.validate(true).unwrap_err(), "src_dir not provided");
    assert!(b.build(true).is_err());
}

#[test]
fn src_dir_that_is_not_a_directory_fails_construction() {
    // The caller probed the filesystem: the path is missing or a plain file.
    let b = Resource::builder().src_dir("src").definition_file("bundle.xml");
    assert_eq!(b.validate(false).unwrap_err(), "src is not a directory");
    assert!(b.build(false).is_err());
}

#[test]
fn missing_definition_file_fails_construction() {
    let b = Resource::builder().src_dir("src");
    assert_eq!(b.validate(true).unwrap_err(), "definition_file not provided");
}

#[test]
fn wrong_extension_fails_construction() {
    let b = Resource::builder().src_dir("src").definition_file("bundle.txt");
    assert_eq!(b.validate(true).unwrap_err(), "bundle.txt does not name a .xml file");
    assert!(b.build(true).is_err());
}

#[test]
fn trailing_slash_fails_construction() {
    let b = Resource::builder().src_dir("src").definition_file("bundle.xml/");
    assert!(b.validate(true).is_err());
}

#[test]
fn extension_alone_fails_construction() {
    let b = Resource::builder().src_dir("src").definition_file(".xml");
    assert!(b.validate(true).is_err());
}

#[test]
fn valid_configuration_builds() {
    let b = Resource::builder().src_dir("src").definition_file("bundle.xml");
    assert!(b.validate(true).is_ok());
    let res = b.build(true).unwrap();
    assert_eq!(res.src_dir, "src");
    assert_eq!(res.definition_file, "bundle.xml");
    assert_eq!(res.base_name(), "bundle");
}

#[test]
fn base_name_strips_directories_and_extension() {
    let res = Resource::builder()
        .src_dir("src")
        .definition_file("path/to/app.gresource.xml")
        .build(true)
        .unwrap();
    assert_eq!(res.base_name(), "app.gresource");
}
