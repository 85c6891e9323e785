use simtotp::store::{apply_password, write_db, Namespace};

fn ns(name: &str, accounts: &[(&str, &str)]) -> Namespace {
    (
        name.as_bytes().to_vec(),
        accounts
            .iter()
            .map(|(a, s)| (a.as_bytes().to_vec(), s.as_bytes().to_vec()))
            .collect(),
    )
}

#[test]
fn store_text_without_password() {
    let db = vec![ns("work", &[("gh", "ABC"), ("mail", "XYZ")])];
    let text = write_db(b"", &db);
    assert_eq!(
        String::from_utf8(text).unwrap(),
        r#"{"work":{"gh":"ABC","mail":"XYZ","":""},"":{} }"#
    );
}

#[test]
fn store_text_empty() {
    let text = write_db(b"", &Vec::new());
    assert_eq!(String::from_utf8(text).unwrap(), r#"{"":{} }"#);
}

#[test]
fn store_skips_empty_names() {
    let db = vec![ns("", &[("x", "1")]), ns("home", &[("", "2"), ("bank", "3")])];
    let text = write_db(b"", &db);
    assert_eq!(
        String::from_utf8(text).unwrap(),
        r#"{"home":{"bank":"3","":""},"":{} }"#
    );
}

#[test]
fn store_obfuscation_round_trip() {
    let db = vec![ns("work", &[("gh", "JBSWY3DPEHPK3PXP")])];
    let plain = write_db(b"", &db);
    let mut hidden = write_db(b"pw", &db);
    assert_ne!(hidden, plain);
    assert_eq!(hidden[0], b'{' ^ b'p');
    assert_eq!(hidden[1], b'"' ^ b'w');
    apply_password(&mut hidden, b"pw");
    assert_eq!(hidden, plain);
}
