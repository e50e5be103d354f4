use unzip::drive::{append_metas, DriveCapabilities, DriveFile, Error, GDriveId, GMeta};

fn full_record() -> DriveFile {
    DriveFile {
        id: Some("1wS6tVoVmkdMZ96DgcKew".to_string()),
        name: Some("notes.txt".to_string()),
        mime_type: Some("text/plain".to_string()),
        modified_time: Some(1_700_000_000_000),
        capabilities: Some(DriveCapabilities { can_download: Some(true) }),
    }
}

#[test]
fn complete_record_validates() {
    let meta = GMeta::new(full_record()).unwrap();
    assert_eq!(meta.id, GDriveId::from("1wS6tVoVmkdMZ96DgcKew"));
    assert_eq!(meta.name, "notes.txt");
    assert_eq!(meta.mime_type, "text/plain");
    assert_eq!(meta.modified_time, 1_700_000_000_000);
    assert!(meta.can_download);
}

#[test]
fn first_missing_field_names_the_failure() {
    let mut record = full_record();
    record.id = None;
    assert!(matches!(GMeta::new(record), Err(Error::MetaIsNull("id"))));

    let mut record = full_record();
    record.mime_type = None;
    assert!(matches!(GMeta::new(record), Err(Error::MetaIsNull("mime_type"))));

    let mut record = full_record();
    record.name = None;
    assert!(matches!(GMeta::new(record), Err(Error::MetaIsNull("name"))));

    let mut record = full_record();
    record.modified_time = None;
    assert!(matches!(GMeta::new(record), Err(Error::MetaIsNull("modifiedTime"))));

    let mut record = full_record();
    record.capabilities = None;
    assert!(matches!(GMeta::new(record), Err(Error::MetaIsNull("capabilities"))));

    let mut record = full_record();
    record.capabilities = Some(DriveCapabilities { can_download: None });
    assert!(matches!(GMeta::new(record), Err(Error::MetaIsNull("capabilities.canDownload"))));
}

#[test]
fn media_type_classification() {
    let mut meta = GMeta::new(full_record()).unwrap();
    assert!(!meta.is_google_app());
    assert!(!meta.is_directory());
    assert!(!meta.is_google_app_file());

    meta.mime_type = "application/vnd.google-apps.folder".to_string();
    assert!(meta.is_google_app());
    assert!(meta.is_directory());
    assert!(!meta.is_google_app_file());

    meta.mime_type = "application/vnd.google-apps.document".to_string();
    assert!(meta.is_google_app());
    assert!(!meta.is_directory());
    assert!(meta.is_google_app_file());
}

#[test]
fn page_of_complete_records_is_appended_in_order() {
    let mut page = Vec::new();
    for name in ["a.txt", "b.txt", "c.txt"] {
        let mut record = full_record();
        record.name = Some(name.to_string());
        page.push(record);
    }
    let mut metas: Vec<GMeta> = Vec::new();
    append_metas(page, &mut metas).unwrap();
    let names: Vec<&str> = metas.iter().map(|m| m.name.as_str()).collect();
    assert_eq!(names, vec!["a.txt", "b.txt", "c.txt"]);
}

#[test]
fn page_validation_stops_at_the_first_incomplete_record() {
    let mut bad = full_record();
    bad.mime_type = None;
    let mut page = Vec::new();
    let mut first = full_record();
    first.name = Some("kept.txt".to_string());
    page.push(first);
    page.push(bad);
    let mut tail = full_record();
    tail.name = Some("never-reached.txt".to_string());
    page.push(tail);
    let mut metas: Vec<GMeta> = Vec::new();
    let err = append_metas(page, &mut metas).unwrap_err();
    assert!(matches!(err, Error::MetaIsNull("mime_type")));
    assert_eq!(metas.len(), 1);
    assert_eq!(metas[0].name, "kept.txt");
}

#[test]
fn identifiers_compare_by_content() {
    let a: GDriveId = "1wS6tVoVmkdMZ96DgcKew-pSYBpJa9pXA".into();
    let b = GDriveId::from("1wS6tVoVmkdMZ96DgcKew-pSYBpJa9pXA".to_string());
    assert_eq!(a, b);
    assert_eq!(a.as_str(), "1wS6tVoVmkdMZ96DgcKew-pSYBpJa9pXA");
}
