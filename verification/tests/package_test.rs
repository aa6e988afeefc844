use gas_config::config::decoding::{ByteBuf, Decode, Float32, Float64};
use gas_config::config::generated::{table_files, Tables};
use gas_config::config::loading::load_tables;
use gas_config::config::package::files::{next_file_limit, PackageReader};
use gas_config::config::package::hashes::{fingerprint_of, package_schema_hash};
use gas_config::config::package::json::{check_manifest_bytes, manifest_bytes};
use gas_config::config::package::manifest::{
    accept_table_file, check_manifest, expected_files, manifest_contents, manifest_document, manifest_record,
    package_data_hash, FileRecord, JsonValue,
};
use gas_config::config::package::{add_package_size, MAX_FILE_BYTES, MAX_PACKAGE_BYTES};
use gas_config::config::{ConfigErrorKind, ConfigLocation};

fn empty_package() -> Vec<(String, Vec<u8>)> {
    table_files().into_iter().map(|name| (name.to_owned(), vec![0u8])).collect()
}

fn file_field(location: &ConfigLocation) -> (String, Option<String>, Option<usize>) {
    match location {
        ConfigLocation::File { path, field, byte_offset } => (path.clone(), field.clone(), *byte_offset),
        other => panic!("unexpected location {other:?}"),
    }
}

fn text(s: &str) -> JsonValue {
    JsonValue::Text(s.to_owned())
}

fn manifest_json(format: u64, schema: &str, data_hash: &str, files: &[FileRecord]) -> JsonValue {
    let entries = files
        .iter()
        .map(|f| {
            JsonValue::Object(vec![
                ("hash".to_owned(), text(&f.hash)),
                ("name".to_owned(), text(&f.name)),
                ("size".to_owned(), JsonValue::Number(Some(f.size))),
            ])
        })
        .collect();
    JsonValue::Object(vec![
        ("data_hash".to_owned(), text(data_hash)),
        ("files".to_owned(), JsonValue::Array(entries)),
        ("format_version".to_owned(), JsonValue::Number(Some(format))),
        ("schema_hash".to_owned(), text(schema)),
        ("template_version".to_owned(), JsonValue::Number(Some(1))),
    ])
}

fn package_records() -> Vec<FileRecord> {
    expected_files()
        .unwrap()
        .iter()
        .map(|(name, _)| manifest_record(name, &[0u8]))
        .collect()
}

#[test]
fn decoding_rejects_truncated_and_trailing_bytes() {
    for malformed in [vec![], vec![1], vec![0, 0]] {
        let mut files = empty_package();
        files[0].1 = malformed;
        let error = Tables::new(files).unwrap_err();
        assert_eq!(error.table, "gas_tbability");
    }
    assert!(Tables::new(empty_package()).is_ok());
}

#[test]
fn package_loading_reports_decode_offsets_and_missing_tables() {
    let mut files = empty_package();
    files[0].1 = vec![];
    let error = load_tables("data/config", files).unwrap_err();
    assert_eq!(error.kind(), ConfigErrorKind::Decode);
    assert_eq!(file_field(error.location()), ("data/config/gas_tbability.bytes".to_owned(), None, Some(0)));

    let mut files = empty_package();
    files.remove(3);
    let error = load_tables("data/config/", files).unwrap_err();
    assert_eq!(error.kind(), ConfigErrorKind::Package);
    assert_eq!(file_field(error.location()), ("data/config/gas_tbattribute.bytes".to_owned(), None, None));
}

#[test]
fn compact_integers_decode_in_every_width() {
    for (bytes, expected) in [
        (vec![0x05u8], 5i32),
        (vec![0x81, 0x00], 256),
        (vec![0xc1, 0x00, 0x00], 0x10000),
        (vec![0xe1, 0x00, 0x00, 0x00], 0x1000000),
        (vec![0xf0, 0xff, 0xff, 0xff, 0xff], -1),
    ] {
        let mut buf = ByteBuf::new(bytes.clone());
        assert_eq!(buf.read_int().unwrap(), expected);
        assert!(buf.finish().is_ok());
        let mut buf = ByteBuf::new(bytes);
        assert_eq!(<i32 as Decode>::decode(&mut buf).unwrap(), expected);
    }
    let mut truncated = ByteBuf::new(vec![0x81]);
    let error = truncated.read_int().unwrap_err();
    assert_eq!(error.offset(), 1);
}

#[test]
fn floats_decode_as_little_endian_bit_patterns() {
    let mut buf = ByteBuf::new(1.5f32.to_le_bytes().to_vec());
    let value = <Float32 as Decode>::decode(&mut buf).unwrap();
    assert_eq!(f32::from_bits(value.0), 1.5);
    let mut buf = ByteBuf::new((-2.25f64).to_le_bytes().to_vec());
    let value = <Float64 as Decode>::decode(&mut buf).unwrap();
    assert_eq!(f64::from_bits(value.0), -2.25);
    assert!(buf.finish().is_ok());
    let mut short = ByteBuf::new(vec![0u8; 7]);
    assert!(<Float64 as Decode>::decode(&mut short).is_err());
}

#[test]
fn package_sizes_are_bounded() {
    let mut total = MAX_PACKAGE_BYTES - 10;
    assert!(add_package_size(&mut total, 10).is_ok());
    assert_eq!(total, MAX_PACKAGE_BYTES);
    let error = add_package_size(&mut total, 1).unwrap_err();
    assert_eq!(error.kind(), ConfigErrorKind::Capacity);
    assert_eq!(total, MAX_PACKAGE_BYTES + 1);
    let mut big = u64::MAX;
    assert!(add_package_size(&mut big, 1).is_err());
    assert_eq!(big, u64::MAX);
    assert_eq!(next_file_limit(0), MAX_FILE_BYTES);
    assert_eq!(next_file_limit(MAX_PACKAGE_BYTES - 5), 5);
}

#[test]
fn package_reader_requests_every_table_in_order() {
    let mut reader = PackageReader::new();
    let mut names = vec![];
    while let Some((name, limit)) = reader.next_request() {
        assert_eq!(limit, MAX_FILE_BYTES);
        names.push(name);
        reader.accept(vec![0]).unwrap();
    }
    assert_eq!(names.len(), table_files().len());
    assert_eq!(names[0], "gas_tbability.bytes");
    let loaded = reader.finish();
    assert_eq!(loaded[7].0, "gas_tbtargeting");
    assert!(Tables::new(loaded).is_ok());
}

#[test]
fn fingerprints_are_lowercase_blake3_hex() {
    assert_eq!(fingerprint_of(b""), "af1349b9f5f9a1a6a0404dea36dcc9499bcb25c9adc112b7cc9a93cae41f3262");
    assert_eq!(fingerprint_of(b"abc"), blake3::hash(b"abc").to_hex().to_string());
    let schema = package_schema_hash();
    assert_eq!(schema.len(), 64);
    assert_eq!(schema, package_schema_hash());
}

#[test]
fn data_hash_frames_every_record() {
    let records = package_records();
    let mut hasher = blake3::Hasher::new();
    let mut part = |bytes: &[u8]| {
        hasher.update(&(bytes.len() as u64).to_le_bytes());
        hasher.update(bytes);
    };
    part(b"gas-config-data-v1");
    for r in &records {
        part(r.name.as_bytes());
        part(&r.size.to_le_bytes());
        part(r.hash.as_bytes());
    }
    assert_eq!(package_data_hash(&records), hasher.finalize().to_hex().to_string());
}

#[test]
fn written_manifests_pass_their_own_checks() {
    let records = package_records();
    let contents = manifest_contents(records.clone());
    let json = manifest_json(contents.format_version, &contents.schema_hash, &contents.data_hash, &contents.files);
    let checked = check_manifest(&json, "pkg/index.json").unwrap();
    assert_eq!(checked, records);

    let expected = expected_files().unwrap();
    let mut total = 0;
    let table = accept_table_file(&expected, &records[0], "pkg/gas_tbability.bytes", &[0u8], &mut total).unwrap();
    assert_eq!(table, "gas_tbability");
    assert_eq!(total, 1);
    let error = accept_table_file(&expected, &records[0], "pkg/gas_tbability.bytes", &[1u8], &mut total).unwrap_err();
    assert_eq!(error.kind(), ConfigErrorKind::Package);
    assert_eq!(file_field(error.location()), ("pkg/gas_tbability.bytes".to_owned(), Some("hash".to_owned()), None));
}

#[test]
fn manifest_documents_read_back_as_their_records() {
    let records: Vec<FileRecord> = expected_files()
        .unwrap()
        .iter()
        .enumerate()
        .map(|(i, (name, _))| manifest_record(name, &vec![i as u8; i + 1]))
        .collect();
    let document = manifest_document(&manifest_contents(records.clone()));
    match &document {
        JsonValue::Object(members) => {
            let names: Vec<&str> = members.iter().map(|(k, _)| k.as_str()).collect();
            assert_eq!(names, ["format_version", "template_version", "schema_hash", "data_hash", "files"]);
            assert!(matches!(members[0].1, JsonValue::Number(Some(1))));
            match &members[4].1 {
                JsonValue::Array(entries) => assert_eq!(entries.len(), records.len()),
                _ => panic!("files member is not an array"),
            }
        }
        _ => panic!("document is not an object"),
    }
    assert_eq!(check_manifest(&document, "pkg/index.json").unwrap(), records);
}

#[test]
fn manifest_checks_report_schema_and_table_set() {
    let records = package_records();
    let contents = manifest_contents(records.clone());
    let json = manifest_json(1, "incompatible-schema", &contents.data_hash, &records);
    let error = check_manifest(&json, "pkg/index.json").unwrap_err();
    assert_eq!(error.kind(), ConfigErrorKind::Package);
    assert_eq!(file_field(error.location()), ("pkg/index.json".to_owned(), Some("schema_hash".to_owned()), None));

    let json = manifest_json(2, &contents.schema_hash, &contents.data_hash, &records);
    let error = check_manifest(&json, "pkg/index.json").unwrap_err();
    assert_eq!(file_field(error.location()).1, Some("format_version".to_owned()));

    let shorter = &records[..records.len() - 1];
    let json = manifest_json(1, &contents.schema_hash, &contents.data_hash, shorter);
    let error = check_manifest(&json, "pkg/index.json").unwrap_err();
    assert_eq!(file_field(error.location()), ("pkg/index.json".to_owned(), None, None));

    let mut renamed = records.clone();
    renamed[0].name = "../escape.bytes".to_owned();
    let json = manifest_json(1, &contents.schema_hash, &contents.data_hash, &renamed);
    let error = check_manifest(&json, "pkg/index.json").unwrap_err();
    assert_eq!(file_field(error.location()).1, Some("files[0]".to_owned()));
    assert_eq!(error.message(), "unknown or unsafe table filename \"../escape.bytes\"");

    let mut repeated = records.clone();
    repeated[1].name = repeated[0].name.clone();
    let json = manifest_json(1, &contents.schema_hash, &contents.data_hash, &repeated);
    let error = check_manifest(&json, "pkg/index.json").unwrap_err();
    assert_eq!(file_field(error.location()).1, Some("files[1]".to_owned()));
    assert_eq!(error.message(), format!("duplicate table filename {:?}", records[0].name));

    let json = manifest_json(1, &contents.schema_hash, "0000", &records);
    let error = check_manifest(&json, "pkg/index.json").unwrap_err();
    assert_eq!(file_field(error.location()).1, Some("data_hash".to_owned()));

    let error = check_manifest(&JsonValue::Array(vec![]), "pkg/index.json").unwrap_err();
    assert_eq!(file_field(error.location()), ("pkg/index.json".to_owned(), None, None));
}

#[test]
fn expected_files_are_sorted_by_file_name() {
    let expected = expected_files().unwrap();
    let names: Vec<&str> = expected.iter().map(|(name, _)| name.as_str()).collect();
    let mut sorted = names.clone();
    sorted.sort();
    assert_eq!(names, sorted);
    assert_eq!(expected.len(), 8);
    assert!(expected.iter().all(|(name, table)| *name == format!("{table}.bytes")));
}

#[test]
fn manifest_text_reads_back_as_its_records() {
    let records = package_records();
    let document = manifest_document(&manifest_contents(records.clone()));
    let bytes = manifest_bytes(&document, "pkg/index.json").unwrap();
    let text = String::from_utf8(bytes.clone()).unwrap();
    assert!(text.starts_with("{\n  \""));
    assert!(text.contains("\"format_version\": 1"));
    assert_eq!(check_manifest_bytes(&bytes, "pkg/index.json").unwrap(), records);

    let edited = text.replace(&package_schema_hash(), "incompatible-schema");
    let error = check_manifest_bytes(edited.as_bytes(), "pkg/index.json").unwrap_err();
    assert_eq!(error.kind(), ConfigErrorKind::Package);
    assert_eq!(file_field(error.location()), ("pkg/index.json".to_owned(), Some("schema_hash".to_owned()), None));
}

#[test]
fn malformed_manifest_text_is_a_package_error() {
    let error = check_manifest_bytes(b"not valid JSON", "pkg/index.json").unwrap_err();
    assert_eq!(error.kind(), ConfigErrorKind::Package);
    assert_eq!(file_field(error.location()), ("pkg/index.json".to_owned(), None, None));
    assert!(!error.message().is_empty());

    let oversized = vec![b' '; 1048577];
    let error = check_manifest_bytes(&oversized, "pkg/index.json").unwrap_err();
    assert_eq!(error.kind(), ConfigErrorKind::Capacity);
}
