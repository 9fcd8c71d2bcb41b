use iati_json_parser::convert::{convert_file, convert_xml_to_json, preprocess_xml, project_document};
use iati_json_parser::decode::{decode_xml, is_blank};
use iati_json_parser::error::ErrorKind;
use iati_json_parser::json::Json;
use iati_json_parser::walk::{
    error_entry, is_activity_file, merge_outcomes, single_file_output, xml_file_name,
};

fn field<'a>(j: &'a Json, key: &str) -> Option<&'a Json> {
    match j {
        Json::Object(e) => e.iter().find(|(k, _)| k == key).map(|(_, v)| v),
        _ => None,
    }
}

const TWO_ACTIVITIES: &str = r#"<?xml version="1.0" encoding="UTF-8"?>
<iati-activities version="2.03">
  <iati-activity>
    <iati-identifier>XM-A</iati-identifier>
    <transaction>
      <transaction-type code="2"/>
      <transaction-date iso-date="2020-01-01"/>
      <value currency="USD" value-date="2020-01-01">100</value>
    </transaction>
    <transaction>
      <transaction-type code="3"/>
      <value currency="USD" value-date="2020-01-01">50</value>
    </transaction>
  </iati-activity>
  <iati-activity>
    <iati-identifier>XM-B</iati-identifier>
    <transaction>
      <transaction-type code="4"/>
      <value value-date="2021-01-01">7</value>
    </transaction>
    <transaction>
      <transaction-type code="1"/>
      <transaction-date iso-date="2021-05-05"/>
      <value value-date="2021-01-01">8</value>
    </transaction>
  </iati-activity>
</iati-activities>
"#;

const ONE_ACTIVITY: &str = r#"<?xml version="1.0"?>
<iati-activities>
  <iati-activity>
    <iati-identifier>XM-ONE</iati-identifier>
    <title><narrative>Roads for rural markets</narrative></title>
  </iati-activity>
</iati-activities>
"#;

fn no_paths() -> Vec<String> {
    Vec::new()
}

#[test]
fn two_activities_keep_one_transaction_each() {
    let records = convert_file("two.xml", &TWO_ACTIVITIES.as_bytes().to_vec(), &no_paths()).unwrap();
    assert_eq!(records.len(), 2);
    for (r, id) in records.iter().zip(["XM-A", "XM-B"]) {
        assert_eq!(field(r, "iati-identifier"), Some(&Json::Str(id.to_string())));
        match field(r, "transaction") {
            Some(Json::Array(t)) => assert_eq!(t.len(), 1),
            _ => panic!("transactions should be an array"),
        }
    }
    let t = match field(&records[1], "transaction") {
        Some(Json::Array(t)) => t,
        _ => unreachable!(),
    };
    assert_eq!(field(&t[0], "transaction-date"), Some(&Json::Str("2021-05-05".to_string())));
    assert_eq!(field(&t[0], "transaction-value"), Some(&Json::Number("8".to_string())));
}

#[test]
fn directory_with_bad_files_still_yields_records() {
    let good = convert_file("data/good.xml", &ONE_ACTIVITY.as_bytes().to_vec(), &no_paths());
    let empty = convert_file("data/empty.xml", &Vec::new(), &no_paths());
    let html = b"<!DOCTYPE html>\n<html><body>Not found</body></html>".to_vec();
    let page = convert_file("data/page.xml", &html, &no_paths());
    let merged = merge_outcomes(vec![good, empty, page]);
    assert_eq!(merged.records.len(), 1);
    assert_eq!(merged.errors.len(), 2);
    assert_eq!(merged.errors[0].kind, ErrorKind::EmptyFile);
    assert_eq!(merged.errors[0].path, "data/empty.xml");
    assert_eq!(merged.errors[1].kind, ErrorKind::NotXml);
    assert_eq!(merged.errors[1].path, "data/page.xml");
    assert_eq!(
        field(&merged.records[0], "iati-identifier"),
        Some(&Json::Str("XM-ONE".to_string()))
    );
}

#[test]
fn merge_keeps_file_order() {
    let a = convert_file("a.xml", &TWO_ACTIVITIES.as_bytes().to_vec(), &no_paths());
    let b = convert_file("b.xml", &ONE_ACTIVITY.as_bytes().to_vec(), &no_paths());
    let merged = merge_outcomes(vec![a, b]);
    let ids: Vec<&Json> = merged.records.iter().map(|r| field(r, "iati-identifier").unwrap()).collect();
    assert_eq!(
        ids,
        vec![
            &Json::Str("XM-A".to_string()),
            &Json::Str("XM-B".to_string()),
            &Json::Str("XM-ONE".to_string())
        ]
    );
    assert!(merged.errors.is_empty());
}

#[test]
fn single_activity_same_as_array_of_one() {
    let plain = convert_file("one.xml", &ONE_ACTIVITY.as_bytes().to_vec(), &no_paths()).unwrap();
    let forced = vec!["/iati-activities/iati-activity".to_string()];
    let doc = convert_xml_to_json(ONE_ACTIVITY, &forced).unwrap();
    match field(field(&doc, "iati-activities").unwrap(), "iati-activity") {
        Some(Json::Array(a)) => assert_eq!(a.len(), 1),
        _ => panic!("the forced path should give an array"),
    }
    let arrayed = project_document(&doc);
    assert_eq!(plain.len(), 1);
    assert_eq!(plain, arrayed);
    assert_eq!(field(&plain[0], "title"), Some(&Json::Str("Roads for rural markets".to_string())));
}

#[test]
fn organisation_files_are_skipped() {
    assert!(!is_activity_file("GB-1-org.xml"));
    assert!(!is_activity_file("data/x/-org.xml"));
    assert!(is_activity_file("GB-1.xml"));
    assert!(is_activity_file("org.xml"));
    assert!(!is_activity_file("notes.txt"));
    assert!(!is_activity_file("xml"));
}

#[test]
fn document_without_wrapper_is_one_activity() {
    let xml = "<iati-activity><iati-identifier>XM-C</iati-identifier></iati-activity>";
    let doc = convert_xml_to_json(xml, &no_paths()).unwrap();
    let records = project_document(&doc);
    assert_eq!(records.len(), 1);
}

#[test]
fn wrapper_without_activities_yields_nothing() {
    let xml = "<iati-activities><other>1</other></iati-activities>";
    let records = convert_file("x.xml", &xml.as_bytes().to_vec(), &no_paths()).unwrap();
    assert!(records.is_empty());
}

#[test]
fn attributes_share_the_namespace_of_children() {
    let doc = convert_xml_to_json("<x a=\"v\">t</x>", &no_paths()).unwrap();
    let x = field(&doc, "x").unwrap();
    assert_eq!(field(x, "a"), Some(&Json::Str("v".to_string())));
    assert_eq!(field(x, "#text"), Some(&Json::Str("t".to_string())));
}

#[test]
fn url_tokens_are_removed() {
    assert_eq!(preprocess_xml("<a><https://x.org/p?q=1>b</a>"), "<a>b</a>");
    assert_eq!(preprocess_xml("<a><http://x.org>b<http://y>c</a>"), "<a>bc</a>");
    assert_eq!(preprocess_xml("<a>plain</a>"), "<a>plain</a>");
    assert_eq!(preprocess_xml("<http://never-closed"), "<http://never-closed");
}

#[test]
fn malformed_xml_retried_after_removing_urls() {
    let xml = "<a><b>see <https://example.org/x> here</b></a>";
    let doc = convert_xml_to_json(xml, &no_paths()).unwrap();
    assert_eq!(
        field(field(&doc, "a").unwrap(), "b"),
        Some(&Json::Str("see  here".to_string()))
    );
}

#[test]
fn malformed_xml_reports_first_error() {
    let err = convert_file("bad.xml", &b"<a><b></a>".to_vec(), &no_paths()).unwrap_err();
    assert_eq!(err.kind, ErrorKind::MalformedXml);
    assert_eq!(err.path, "bad.xml");
    assert!(!err.message.is_empty());
}

#[test]
fn decoding_rules() {
    assert_eq!(decode_xml(&Vec::new()).unwrap_err(), ErrorKind::EmptyFile);
    assert_eq!(decode_xml(&b"  \n ".to_vec()).unwrap_err(), ErrorKind::EmptyFile);
    assert_eq!(decode_xml(&vec![0xC3, 0x28, 0x41]).unwrap_err(), ErrorKind::InvalidEncoding);
    assert_eq!(
        decode_xml(&b"<html><!DOCTYPE html></html>".to_vec()).unwrap_err(),
        ErrorKind::NotXml
    );
    assert_eq!(
        decode_xml(&b"<?xml version=\"1.0\"?><!DOCTYPE html><a/>".to_vec()).unwrap(),
        "<?xml version=\"1.0\"?><!DOCTYPE html><a/>"
    );
    let mut le = vec![0xFF, 0xFE];
    for u in "<a>é</a>".encode_utf16() {
        le.extend_from_slice(&u.to_le_bytes());
    }
    assert_eq!(decode_xml(&le).unwrap(), "\u{feff}<a>é</a>");
    let mut be = vec![0xFE, 0xFF];
    for u in "<a/>".encode_utf16() {
        be.extend_from_slice(&u.to_be_bytes());
    }
    assert_eq!(decode_xml(&be).unwrap(), "\u{feff}<a/>");
    assert_eq!(decode_xml(&vec![0xFF, 0xFE, 0x00, 0xD8]).unwrap_err(), ErrorKind::InvalidEncoding);
}

#[test]
fn blank_text() {
    assert!(is_blank(" \t\n"));
    assert!(is_blank(""));
    assert!(!is_blank(" x "));
}

#[test]
fn single_file_output_unwraps_one_record() {
    let one = single_file_output(vec![Json::Null]);
    assert_eq!(one, Json::Null);
    let two = single_file_output(vec![Json::Null, Json::Bool(true)]);
    assert_eq!(two, Json::Array(vec![Json::Null, Json::Bool(true)]));
    assert_eq!(single_file_output(vec![]), Json::Array(vec![]));
}

#[test]
fn error_list_lines() {
    assert_eq!(
        error_entry("404 gb-org  gb-org-1  https://example.org/a.xml"),
        Some(("gb-org".to_string(), "gb-org-1".to_string()))
    );
    assert_eq!(error_entry("404 gb-org gb-org-1"), None);
    assert_eq!(error_entry(""), None);
    assert_eq!(xml_file_name("gb-org-1"), "gb-org-1.xml");
    assert_eq!(xml_file_name("a.xml"), "a.xml");
}

#[test]
fn every_error_kind_has_its_own_message() {
    let kinds = [
        ErrorKind::Unreadable,
        ErrorKind::EmptyFile,
        ErrorKind::InvalidEncoding,
        ErrorKind::NotXml,
        ErrorKind::MalformedXml,
        ErrorKind::InvalidRootPath,
        ErrorKind::MissingArchiveRoot,
    ];
    let messages: Vec<String> = kinds.iter().map(|k| k.message()).collect();
    for (i, m) in messages.iter().enumerate() {
        assert!(!m.is_empty());
        for other in &messages[i + 1..] {
            assert_ne!(m, other);
        }
    }
    assert_eq!(ErrorKind::EmptyFile.message(), "the file is empty");
}
