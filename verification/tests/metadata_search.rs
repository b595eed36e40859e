use heic_to_dynamic_gnome_wallpaper::metadata::{
    decode_plist_payload, get_wallpaper_metadata, wallpaper_mode_from_attributes, wallpaper_mode_from_event,
    MetadataError, WallPaperMode,
};
use heic_to_dynamic_gnome_wallpaper::xml_events::{AttributeItem, XmlEvent};

const XMP: &str = "<?xml version=\"1.0\"?>\n<x:xmpmeta xmlns:x=\"adobe:ns:meta/\" x:xmptk=\"XMP Core 5.4.0\">\n <rdf:RDF xmlns:rdf=\"http://www.w3.org/1999/02/22-rdf-syntax-ns#\">\n  <rdf:Description rdf:about=\"\" xmlns:apple_desktop=\"http://ns.apple.com/namespace/1.0/\" apple_desktop:h24=\"YnBsaXN0MDA=\"/>\n </rdf:RDF>\n</x:xmpmeta>";

#[test]
fn finds_time_based_description() {
    assert_eq!(
        get_wallpaper_metadata(XMP.as_bytes()),
        Ok(Some(WallPaperMode::H24("YnBsaXN0MDA=".to_string())))
    );
}

#[test]
fn finds_solar_description_after_whitespace() {
    let doc = "   \n  <a apple_desktop:solar=\"S0xBUg==\"/>";
    assert_eq!(
        get_wallpaper_metadata(doc.as_bytes()),
        Ok(Some(WallPaperMode::Solar("S0xBUg==".to_string())))
    );
}

#[test]
fn last_wallpaper_attribute_wins() {
    let doc = "<a apple_desktop:h24=\"X\" other=\"1\" apple_desktop:solar=\"Y\"/>";
    assert_eq!(get_wallpaper_metadata(doc.as_bytes()), Ok(Some(WallPaperMode::Solar("Y".to_string()))));
    let doc = "<a apple_desktop:solar=\"Y\" apple_desktop:h24=\"X\"/>";
    assert_eq!(get_wallpaper_metadata(doc.as_bytes()), Ok(Some(WallPaperMode::H24("X".to_string()))));
}

#[test]
fn only_first_empty_element_counts() {
    let doc = "<root><a b=\"c\"/><d apple_desktop:h24=\"X\"/></root>";
    assert_eq!(get_wallpaper_metadata(doc.as_bytes()), Ok(None));
}

#[test]
fn document_without_empty_element_has_no_description() {
    assert_eq!(get_wallpaper_metadata(b"<a>text</a>"), Ok(None));
    assert_eq!(get_wallpaper_metadata(b""), Ok(None));
}

#[test]
fn reader_error_before_empty_element_gives_none() {
    let doc = "<a></b><c apple_desktop:h24=\"X\"/>";
    assert_eq!(get_wallpaper_metadata(doc.as_bytes()), Ok(None));
}

#[test]
fn duplicated_attribute_is_malformed() {
    let doc = "<a k=\"1\" k=\"2\" apple_desktop:h24=\"X\"/>";
    assert_eq!(get_wallpaper_metadata(doc.as_bytes()), Err(MetadataError::MalformedAttribute));
}

#[test]
fn invalid_utf8_value_is_replaced() {
    let mut doc = b"<a apple_desktop:h24=\"".to_vec();
    doc.push(0xff);
    doc.extend_from_slice(b"A\"/>");
    assert_eq!(get_wallpaper_metadata(&doc), Ok(Some(WallPaperMode::H24("\u{FFFD}A".to_string()))));
}

#[test]
fn attribute_choice_from_items() {
    let items = vec![
        AttributeItem::Parsed { key: b"apple_desktop:h24".to_vec(), value: b"first".to_vec() },
        AttributeItem::Parsed { key: b"apple_desktop:solar".to_vec(), value: b"second".to_vec() },
        AttributeItem::Parsed { key: b"apple_desktop:h2".to_vec(), value: b"third".to_vec() },
    ];
    assert_eq!(wallpaper_mode_from_attributes(&items), Some(WallPaperMode::Solar("second".to_string())));
    let none = vec![AttributeItem::Parsed { key: b"x".to_vec(), value: b"y".to_vec() }];
    assert_eq!(wallpaper_mode_from_attributes(&none), None);
    assert_eq!(wallpaper_mode_from_attributes(&Vec::new()), None);
}

#[test]
fn decodes_base64_payload() {
    assert_eq!(decode_plist_payload("aGVsbG8="), Ok(b"hello".to_vec()));
    assert_eq!(decode_plist_payload(""), Ok(Vec::new()));
}

#[test]
fn rejects_invalid_base64() {
    assert_eq!(decode_plist_payload("###"), Err(MetadataError::InvalidBase64));
}

#[test]
fn decisive_event_decides() {
    let empty = XmlEvent::Empty(vec![AttributeItem::Parsed {
        key: b"apple_desktop:solar".to_vec(),
        value: b"abc".to_vec(),
    }]);
    assert_eq!(wallpaper_mode_from_event(&empty), Ok(Some(WallPaperMode::Solar("abc".to_string()))));
    let bad = XmlEvent::Empty(vec![
        AttributeItem::Parsed { key: b"apple_desktop:h24".to_vec(), value: b"abc".to_vec() },
        AttributeItem::Malformed,
    ]);
    assert_eq!(wallpaper_mode_from_event(&bad), Err(MetadataError::MalformedAttribute));
    assert_eq!(wallpaper_mode_from_event(&XmlEvent::Eof), Ok(None));
    assert_eq!(wallpaper_mode_from_event(&XmlEvent::Error), Ok(None));
}

#[test]
fn no_wallpaper_keys_means_no_description() {
    let doc = "<a apple_desktop:h=\"1\" desktop:h24=\"2\" APPLE_DESKTOP:H24=\"3\"/>";
    assert_eq!(get_wallpaper_metadata(doc.as_bytes()), Ok(None));
}
