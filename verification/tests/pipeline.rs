use space_ingest::csv_store::{append_csv_text, parse_csv_text, write_csv_text, Record, RowIssue};
use space_ingest::digits::{parse_u32_text, u64_to_string};
use space_ingest::horizon::{
    horizon_csv_text, parse_horizon_objects, parse_object_line, process_horizon_response,
    HorizonObject, NetworkError,
};
use space_ingest::nasa_data::{AsteroidData, MinDur, MinDv, NHAT_NASAResponse, Signature};
use space_ingest::path_manager::PathManager;
use space_ingest::validation::{Validatable, ValidationError};

fn well_formed_record() -> AsteroidData {
    AsteroidData {
        des: "433".to_string(),
        fullname: "433 Eros (A898 PA)".to_string(),
        orbit_id: "659".to_string(),
        h: "10.31".to_string(),
        min_size: "4.2".to_string(),
        max_size: "9.3".to_string(),
        size: Some("16.84".to_string()),
        size_sigma: None,
        occ: "0".to_string(),
        min_dv: MinDv { dv: "4.94".to_string(), dur: "354.0".to_string() },
        min_dur: MinDur { dv: "5.18".to_string(), dur: "338.0".to_string() },
        n_via_traj: 2,
        obs_start: "2025-01-01".to_string(),
        obs_end: "2025-03-01".to_string(),
        obs_mag: "19.1".to_string(),
        obs_flag: " ".to_string(),
        radar_obs_a: None,
        radar_snr_a: None,
        radar_obs_g: None,
        radar_snr_g: None,
    }
}

fn response(version: &str, source: &str, data: Vec<AsteroidData>) -> NHAT_NASAResponse {
    NHAT_NASAResponse {
        signature: Signature { version: version.to_string(), source: source.to_string() },
        count: data.len() as u32,
        data,
    }
}

#[test]
fn parse_line_three_tokens() {
    let r = parse_object_line("199 Mars Planet").unwrap();
    assert_eq!(r.ephemeris_id, "199");
    assert_eq!(r.name, "Mars");
    assert_eq!(r.class, "Planet");
}

#[test]
fn parse_line_extra_tokens_ignored() {
    let r = parse_object_line("  1   Ceres   Dwarf   extra tokens here ").unwrap();
    assert_eq!(r.ephemeris_id, "1");
    assert_eq!(r.name, "Ceres");
    assert_eq!(r.class, "Dwarf");
}

#[test]
fn parse_line_too_few_tokens() {
    assert!(parse_object_line("199 Mars").is_none());
    assert!(parse_object_line("").is_none());
    assert!(parse_object_line("   \t  ").is_none());
    assert!(parse_object_line("single").is_none());
}

#[test]
fn parse_listing_drops_malformed_lines() {
    let text = "199 Mars Planet\nnot enough\n301 Moon Satellite\n\n4 Vesta Asteroid";
    let objects = parse_horizon_objects(text);
    assert_eq!(objects.len(), 3);
    assert_eq!(objects[0].ephemeris_id, "199");
    assert_eq!(objects[1].name, "Moon");
    assert_eq!(objects[2].class, "Asteroid");
}

#[test]
fn parse_listing_empty_text() {
    assert_eq!(parse_horizon_objects("").len(), 0);
}

#[test]
fn fetch_empty_body_is_empty_result() {
    let r = process_horizon_response(true, 200, "").unwrap();
    assert_eq!(r.len(), 0);
}

#[test]
fn fetch_failure_carries_status() {
    let r = process_horizon_response(false, 503, "199 Mars Planet");
    assert_eq!(r, Err(NetworkError { status: 503 }));
}

#[test]
fn validate_missing_version_alone() {
    let r = response("", "NASA/JPL", vec![well_formed_record()]);
    let errs = r.validate().unwrap_err();
    assert_eq!(errs.len(), 1);
    assert_eq!(errs[0].field, "signature.version");
    assert_eq!(errs[0].message, "Version is required");
}

#[test]
fn validate_record_with_three_faults() {
    let mut a = well_formed_record();
    a.des = String::new();
    a.fullname = String::new();
    a.obs_end = String::new();
    let r = response("1.1", "NASA/JPL", vec![a]);
    let errs = r.validate().unwrap_err();
    assert_eq!(errs.len(), 3);
    assert_eq!(errs[0].field, "data[0].des");
    assert_eq!(errs[1].field, "data[0].fullname");
    assert_eq!(errs[2].field, "data[0].obs_start/obs_end");
}

#[test]
fn validate_well_formed_response() {
    let r = response("1.1", "NASA/JPL", vec![well_formed_record(), well_formed_record()]);
    assert!(r.validate().is_ok());
}

#[test]
fn validate_error_order() {
    let mut bad = well_formed_record();
    bad.des = String::new();
    let r = response("", "NASA/JPL", vec![well_formed_record(), bad]);
    let errs = r.validate().unwrap_err();
    assert_eq!(errs.len(), 2);
    assert_eq!(errs[0].field, "signature.version");
    assert_eq!(errs[1].field, "data[1].des");
}

#[test]
fn validation_error_rendering() {
    let e = ValidationError::new("signature.source", "Source is required");
    assert_eq!(
        e.describe(),
        "Validation failed for field 'signature.source': Source is required"
    );
}

#[test]
fn write_csv_exact_text() {
    let records = vec![
        Record { id: 1, name: "foo".to_string(), value: "3.5".to_string() },
        Record { id: 2, name: "bar".to_string(), value: "4.25".to_string() },
    ];
    assert_eq!(write_csv_text(&records), "id,name,value\n1,foo,3.5\n2,bar,4.25\n");
}

#[test]
fn append_csv_has_no_header() {
    let records = vec![Record { id: 7, name: "baz".to_string(), value: "0".to_string() }];
    assert_eq!(append_csv_text(&records), "7,baz,0\n");
}

#[test]
fn csv_round_trip() {
    let records = vec![
        Record { id: 10, name: "alpha".to_string(), value: "1.5".to_string() },
        Record { id: 20, name: "beta".to_string(), value: "2.5".to_string() },
        Record { id: 4294967295, name: String::new(), value: "-3e4".to_string() },
    ];
    let text = write_csv_text(&records);
    assert_eq!(text.lines().count(), 4);
    let back = parse_csv_text(&text).unwrap();
    assert_eq!(back, records);
}

#[test]
fn csv_append_round_trip() {
    let first = vec![
        Record { id: 1, name: "a".to_string(), value: "1".to_string() },
        Record { id: 2, name: "b".to_string(), value: "2".to_string() },
    ];
    let more = vec![
        Record { id: 3, name: "c".to_string(), value: "3".to_string() },
        Record { id: 4, name: "d".to_string(), value: "4".to_string() },
    ];
    let mut text = write_csv_text(&first);
    text.push_str(&append_csv_text(&more));
    assert_eq!(text.lines().count(), 5);
    let back = parse_csv_text(&text).unwrap();
    assert_eq!(back.len(), 4);
    assert_eq!(back[..2], first[..]);
    assert_eq!(back[2..], more[..]);
}

#[test]
fn parse_csv_crlf_lines() {
    let back = parse_csv_text("id,name,value\r\n5,gamma,9.5\r\n").unwrap();
    assert_eq!(back.len(), 1);
    assert_eq!(back[0].id, 5);
    assert_eq!(back[0].name, "gamma");
    assert_eq!(back[0].value, "9.5");
}

#[test]
fn parse_csv_empty_text() {
    assert_eq!(parse_csv_text("").unwrap().len(), 0);
}

#[test]
fn parse_csv_malformed_row() {
    let e = parse_csv_text("id,name,value\n1,foo\n").unwrap_err();
    assert_eq!(e.row, 0);
    assert_eq!(e.issue, RowIssue::Malformed);
}

#[test]
fn parse_csv_bad_id_in_second_row() {
    let e = parse_csv_text("id,name,value\n1,foo,2\nx,bar,3\n").unwrap_err();
    assert_eq!(e.row, 1);
    assert_eq!(e.issue, RowIssue::BadId);
}

#[test]
fn parse_u32_text_bounds() {
    assert_eq!(parse_u32_text("0"), Some(0));
    assert_eq!(parse_u32_text("4294967295"), Some(u32::MAX));
    assert_eq!(parse_u32_text("4294967296"), None);
    assert_eq!(parse_u32_text(""), None);
    assert_eq!(parse_u32_text("12a"), None);
    assert_eq!(parse_u32_text("00042"), Some(42));
}

#[test]
fn u64_rendering() {
    assert_eq!(u64_to_string(0), "0");
    assert_eq!(u64_to_string(9), "9");
    assert_eq!(u64_to_string(1234567890123), "1234567890123");
}

#[test]
fn horizon_objects_csv_text() {
    let objects = vec![
        HorizonObject {
            name: "Mars".to_string(),
            class: "Planet".to_string(),
            ephemeris_id: "199".to_string(),
        },
    ];
    assert_eq!(horizon_csv_text(&objects), "name,class,ephemeris_id\nMars,Planet,199\n");
}

#[test]
fn path_manager_paths() {
    let pm = PathManager::from_dirs("/home/u/Documents".to_string(), "/home/u/Desktop".to_string());
    assert_eq!(pm.get_space_simulator_config_path(), "/home/u/Documents/space-simulator/config");
    assert_eq!(pm.get_space_simulator_data_path(), "/home/u/Documents/space-simulator/data");
    assert_eq!(pm.get_desktop_file_path("horizon_objects.csv"), "/home/u/Desktop/horizon_objects.csv");
}
