//! Tests of the `Accept-Language` header and its language tags.

use hyper::header::common::{
    qitem, AcceptLanguage, Header, Language, Quality, QualityItem,
};

#[test]
fn test_parse_header() {
    let raw = vec![b"en-us;q=1.0, en;q=0.5, fr".to_vec()];
    let a: AcceptLanguage = AcceptLanguage::parse_header(&raw).unwrap();
    let b = AcceptLanguage(vec![
        qitem(Language { primary: "en".to_string(), sub: Some("us".to_string()) }),
        QualityItem::new(Language { primary: "en".to_string(), sub: None }, Quality(500)),
        qitem(Language { primary: "fr".to_string(), sub: None }),
    ]);
    assert_eq!(a.display_string(), b.display_string());
    assert_eq!(a, b);
}

#[test]
fn test_display() {
    assert_eq!(
        "en".to_string(),
        Language { primary: "en".to_string(), sub: None }.display_string()
    );
    assert_eq!(
        "en-us".to_string(),
        Language { primary: "en".to_string(), sub: Some("us".to_string()) }.display_string()
    );
}

#[test]
fn test_from_str() {
    assert_eq!(
        Language { primary: "en".to_string(), sub: None },
        "en".parse().unwrap()
    );
    assert_eq!(
        Language { primary: "en".to_string(), sub: Some("us".to_string()) },
        "en-us".parse().unwrap()
    );
}

#[test]
fn test_quality_item_display() {
    let half = QualityItem::new(
        Language { primary: "en".to_string(), sub: None },
        Quality(500),
    );
    assert_eq!(half.display_string(), "en; q=0.5".to_string());
    let full = qitem(Language { primary: "da".to_string(), sub: None });
    assert_eq!(full.display_string(), "da".to_string());
}
