use lagoon::store::{object_key, record, to_lower_hex, QueryConf, SearchResult, SonicConfig};

#[test]
fn sonic_config_keeps_what_it_was_given() {
    let config = SonicConfig::new("localhost".to_owned(), 1491, "SecretPassword".to_owned());
    assert_eq!(config.host(), "localhost");
    assert_eq!(config.port(), 1491);
    assert_eq!(config.password(), "SecretPassword");
}

#[test]
fn default_query_has_limit_zero_and_no_offset() {
    let conf = QueryConf::default();
    assert_eq!(conf.limit, Some(0));
    assert!(conf.offset.is_none());
}

#[test]
fn lower_hex_writes_two_digits_to_the_byte() {
    assert_eq!(to_lower_hex(&[]), "");
    assert_eq!(to_lower_hex(&[0x00]), "00");
    assert_eq!(to_lower_hex(&[0x0f, 0xf0, 0xab, 0x09]), "0ff0ab09");
    assert_eq!(to_lower_hex(&[0xde, 0xad, 0xbe, 0xef]), "deadbeef");
}

#[test]
fn object_key_is_the_md5_digest_in_hex() {
    assert_eq!(
        object_key("abcdefghijklmnopqrstuvwxyz"),
        "c3fcd3d76192e4007dfb496cca67e13b"
    );
    assert_eq!(object_key(""), "d41d8cd98f00b204e9800998ecf8427e");
    assert_eq!(object_key("abc"), "900150983cd24fb0d6963f7d28e17f72");
    assert_eq!(object_key("a longer document, kept under its digest").len(), 32);
}

#[test]
fn record_keeps_fetched_documents_in_order() {
    let mut documents: Vec<SearchResult> = Vec::new();
    record(&mut documents, "h1".to_owned(), Some("first".to_owned()));
    record(&mut documents, "h2".to_owned(), None);
    record(&mut documents, "h3".to_owned(), Some("third".to_owned()));
    assert_eq!(documents.len(), 2);
    assert_eq!(documents[0].hash, "h1");
    assert_eq!(documents[0].doc, "first");
    assert_eq!(documents[1].hash, "h3");
    assert_eq!(documents[1].doc, "third");
}
