use dicom_webview::catalog::{Catalog, CatalogEntry};

fn entry(patient: &str, study: &str, series: &str, path: &str) -> CatalogEntry {
    CatalogEntry {
        patient_id: patient.to_string(),
        patient_name: format!("name of {}", patient),
        study_uid: study.to_string(),
        study_description: format!("study {}", study),
        study_date: "20240101".to_string(),
        series_uid: series.to_string(),
        series_description: format!("series {}", series),
        modality: "CT".to_string(),
        relative_path: path.to_string(),
    }
}

#[test]
fn two_files_of_one_series() {
    let mut catalog = Catalog::new();
    catalog.insert(&entry("ANNA", "ST1", "SE1", "a/1.dcm"));
    catalog.insert(&entry("ANNA", "ST1", "SE1", "a/2.dcm"));
    assert_eq!(catalog.patient_count(), 1);
    assert_eq!(catalog.patients.len(), 1);
    let patient = catalog.patient("ANNA").unwrap();
    assert_eq!(patient.studies.len(), 1);
    let study = patient.study("ST1").unwrap();
    assert_eq!(study.series.len(), 1);
    let series = study.series_with("SE1").unwrap();
    assert_eq!(series.image_count(), 2);
    assert_eq!(series.images, vec!["a/1.dcm", "a/2.dcm"]);
}

#[test]
fn same_series_uid_under_another_patient_is_another_series() {
    let mut catalog = Catalog::new();
    catalog.insert(&entry("ANNA", "ST1", "SE1", "1.dcm"));
    catalog.insert(&entry("BERT", "ST1", "SE1", "2.dcm"));
    assert_eq!(catalog.patient_count(), 2);
    let first = catalog.patient("ANNA").unwrap().study("ST1").unwrap().series_with("SE1").unwrap();
    assert_eq!(first.images, vec!["1.dcm"]);
    let second = catalog.patient("BERT").unwrap().study("ST1").unwrap().series_with("SE1").unwrap();
    assert_eq!(second.images, vec!["2.dcm"]);
}

#[test]
fn empty_catalog_has_no_patients() {
    let catalog = Catalog::new();
    assert_eq!(catalog.patient_count(), 0);
    assert!(catalog.patients.is_empty());
    assert!(catalog.patient("ANNA").is_none());
    assert!(Catalog::build(&vec![]).patients.is_empty());
}

#[test]
fn first_file_fixes_names_and_descriptions() {
    let mut catalog = Catalog::new();
    let first = entry("ANNA", "ST1", "SE1", "1.dcm");
    let mut second = entry("ANNA", "ST1", "SE1", "2.dcm");
    second.patient_name = "Someone Else".to_string();
    second.study_description = "changed".to_string();
    second.study_date = "19990101".to_string();
    second.series_description = "changed".to_string();
    second.modality = "MR".to_string();
    catalog.insert(&first);
    catalog.insert(&second);
    let patient = catalog.patient("ANNA").unwrap();
    assert_eq!(patient.patient_id, "ANNA");
    assert_eq!(patient.patient_name, "name of ANNA");
    let study = patient.study("ST1").unwrap();
    assert_eq!(study.study_uid, "ST1");
    assert_eq!(study.study_description, "study ST1");
    assert_eq!(study.study_date, "20240101");
    let series = study.series_with("SE1").unwrap();
    assert_eq!(series.series_uid, "SE1");
    assert_eq!(series.series_description, "series SE1");
    assert_eq!(series.modality, "CT");
    assert_eq!(series.images, vec!["1.dcm", "2.dcm"]);
}

#[test]
fn new_study_of_a_known_patient_takes_its_own_description() {
    let mut catalog = Catalog::new();
    catalog.insert(&entry("ANNA", "ST1", "SE1", "1.dcm"));
    let mut other = entry("ANNA", "ST2", "SE1", "2.dcm");
    other.patient_name = "ignored".to_string();
    other.modality = "MR".to_string();
    catalog.insert(&other);
    let patient = catalog.patient("ANNA").unwrap();
    assert_eq!(patient.patient_name, "name of ANNA");
    assert_eq!(patient.studies.len(), 2);
    let study = patient.study("ST2").unwrap();
    assert_eq!(study.study_description, "study ST2");
    let series = study.series_with("SE1").unwrap();
    assert_eq!(series.modality, "MR");
    assert_eq!(series.images, vec!["2.dcm"]);
    assert_eq!(patient.study("ST1").unwrap().series_with("SE1").unwrap().images, vec!["1.dcm"]);
}

#[test]
fn image_lists_keep_the_order_of_the_files() {
    let mut catalog = Catalog::new();
    let files = [
        ("ANNA", "ST1", "SE1", "1"),
        ("BERT", "ST9", "SE1", "2"),
        ("ANNA", "ST1", "SE2", "3"),
        ("ANNA", "ST1", "SE1", "4"),
        ("ANNA", "ST2", "SE1", "5"),
        ("BERT", "ST9", "SE1", "6"),
        ("ANNA", "ST1", "SE1", "7"),
    ];
    for (patient, study, series, path) in files {
        catalog.insert(&entry(patient, study, series, path));
    }
    let anna = catalog.patient("ANNA").unwrap();
    let first_study = anna.study("ST1").unwrap();
    assert_eq!(first_study.series_with("SE1").unwrap().images, vec!["1", "4", "7"]);
    assert_eq!(first_study.series_with("SE1").unwrap().image_count(), 3);
    assert_eq!(first_study.series_with("SE2").unwrap().images, vec!["3"]);
    assert_eq!(anna.study("ST2").unwrap().series_with("SE1").unwrap().images, vec!["5"]);
    let bert = catalog.patient("BERT").unwrap();
    assert_eq!(bert.study("ST9").unwrap().series_with("SE1").unwrap().images, vec!["2", "6"]);
    assert!(bert.study("ST1").is_none());
    assert!(first_study.series_with("SE3").is_none());
    assert!(catalog.patient("CARL").is_none());
}

#[test]
fn unreadable_file_is_absent_and_siblings_are_indexed() {
    let scan = vec![
        Some(entry("ANNA", "ST1", "SE1", "dir/1.dcm")),
        None,
        Some(entry("ANNA", "ST1", "SE1", "dir/3.dcm")),
        None,
        Some(entry("BERT", "ST2", "SE2", "other/4.dcm")),
    ];
    let catalog = Catalog::build(&scan);
    assert_eq!(catalog.patients.len(), 2);
    let series = catalog.patient("ANNA").unwrap().study("ST1").unwrap().series_with("SE1").unwrap();
    assert_eq!(series.images, vec!["dir/1.dcm", "dir/3.dcm"]);
    let series = catalog.patient("BERT").unwrap().study("ST2").unwrap().series_with("SE2").unwrap();
    assert_eq!(series.images, vec!["other/4.dcm"]);

    let readable: Vec<Option<CatalogEntry>> = scan.iter().filter(|f| f.is_some()).cloned().collect();
    let same = Catalog::build(&readable);
    assert_eq!(format!("{:?}", catalog), format!("{:?}", same));
}

#[test]
fn scan_of_unreadable_files_only_is_empty() {
    let catalog = Catalog::build(&vec![None, None, None]);
    assert!(catalog.patients.is_empty());
}

#[test]
fn record_skips_what_was_not_read() {
    let mut catalog = Catalog::new();
    catalog.record(&None);
    assert!(catalog.patients.is_empty());
    catalog.record(&Some(entry("ANNA", "ST1", "SE1", "1.dcm")));
    catalog.record(&None);
    assert_eq!(catalog.patients.len(), 1);
    assert_eq!(catalog.patients[0].studies[0].series[0].images, vec!["1.dcm"]);
}

#[test]
fn sentinel_ids_group_like_any_other() {
    let mut catalog = Catalog::new();
    catalog.insert(&entry("UNKNOWN", "UNKNOWN_STUDY", "UNKNOWN_SERIES", "1"));
    catalog.insert(&entry("UNKNOWN", "UNKNOWN_STUDY", "UNKNOWN_SERIES", "2"));
    catalog.insert(&entry("", "", "", "3"));
    assert_eq!(catalog.patients.len(), 2);
    let unknown = catalog.patient("UNKNOWN").unwrap();
    assert_eq!(
        unknown.study("UNKNOWN_STUDY").unwrap().series_with("UNKNOWN_SERIES").unwrap().images,
        vec!["1", "2"]
    );
    assert_eq!(catalog.patient("").unwrap().study("").unwrap().series_with("").unwrap().images, vec!["3"]);
}
