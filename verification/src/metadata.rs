//! Finding the wallpaper description in the image's `mime` metadata block and
//! decoding its base64 payload.
//!
//! The metadata block is an XMP document; its first empty element carries the
//! description as the attribute `apple_desktop:h24` (time based) or
//! `apple_desktop:solar` (solar based).
use vstd::prelude::*;
use vstd::utf8::{decode_utf8, valid_utf8};
use vstd::string::StringSliceAdditionalSpecFns;
use crate::xml_events::{
    AttributeItem, XmlEvent, pending_xml_events, significant_events, xml_document_events,
    xml_reader_from_str, xml_reader_next_event, xml_reader_trim_text,
};

verus! {

/// The wallpaper description found in the metadata, still base64 encoded.
#[derive(Debug, PartialEq, Eq)]
pub enum WallPaperMode {
    /// A time-based description (`apple_desktop:h24`).
    H24(String),
    /// A solar-position-based description (`apple_desktop:solar`).
    Solar(String),
}

/// The mathematical value of a `WallPaperMode`.
pub ghost enum WallPaperModeSpec {
    H24(Seq<char>),
    Solar(Seq<char>),
}

impl View for WallPaperMode {
    type V = WallPaperModeSpec;

    open spec fn view(&self) -> WallPaperModeSpec {
        match self {
            WallPaperMode::H24(s) => WallPaperModeSpec::H24(s@),
            WallPaperMode::Solar(s) => WallPaperModeSpec::Solar(s@),
        }
    }
}

/// Why the metadata could not be turned into a description.
#[derive(PartialEq, Eq, Structural, Debug, Clone, Copy)]
pub enum MetadataError {
    /// The first empty element holds an attribute that the XML reader
    /// rejects (malformed or duplicated).
    MalformedAttribute,
    /// The description is not valid base64.
    InvalidBase64,
}

/// The value of an optional mode.
pub open spec fn option_mode_view(mode: Option<WallPaperMode>) -> Option<WallPaperModeSpec> {
    match mode {
        Some(m) => Some(m@),
        None => None,
    }
}

/// The value of a search result.
pub open spec fn search_result_view(r: Result<Option<WallPaperMode>, MetadataError>)
    -> Result<Option<WallPaperModeSpec>, MetadataError>
{
    match r {
        Ok(m) => Ok(option_mode_view(m)),
        Err(e) => Err(e),
    }
}

/// The attribute key of a time-based description, as bytes.
pub open spec fn h24_key() -> Seq<u8> {
    "apple_desktop:h24".spec_bytes()
}

/// The attribute key of a solar-based description, as bytes.
pub open spec fn solar_key() -> Seq<u8> {
    "apple_desktop:solar".spec_bytes()
}

/// The text that `String::from_utf8_lossy` makes of `bytes`.
pub uninterp spec fn utf8_lossy_text(bytes: Seq<u8>) -> Seq<char>;

/// Calls `String::from_utf8_lossy` and takes the text as an owned `String`.
/// The claim: the result is a function of the bytes, and valid UTF-8 is
/// decoded as it stands (only invalid sequences are replaced).
#[verifier::external_body]
pub(crate) fn utf8_lossy(bytes: &[u8]) -> (text: String)
    ensures
        text@ == utf8_lossy_text(bytes@),
        valid_utf8(bytes@) ==> text@ == decode_utf8(bytes@),
{
    String::from_utf8_lossy(bytes).into_owned()
}

/// Every attribute of `attrs` was parsed.
pub open spec fn attributes_parsed(attrs: Seq<AttributeItem>) -> bool {
    forall|i: int| 0 <= i < attrs.len() ==> (#[trigger] attrs[i]) is Parsed
}

/// The description that the attributes of an element give: the last
/// attribute whose key is `apple_desktop:h24` or `apple_desktop:solar`
/// decides, its value read as (lossy) UTF-8; none if there is no such key.
pub open spec fn mode_of_attributes(attrs: Seq<AttributeItem>) -> Option<WallPaperModeSpec>
    decreases attrs.len(),
{
    if attrs.len() == 0 {
        None
    } else {
        match attrs.last() {
            AttributeItem::Parsed { key, value } => {
                if key@ == h24_key() {
                    Some(WallPaperModeSpec::H24(utf8_lossy_text(value@)))
                } else if key@ == solar_key() {
                    Some(WallPaperModeSpec::Solar(utf8_lossy_text(value@)))
                } else {
                    mode_of_attributes(attrs.drop_last())
                }
            },
            AttributeItem::Malformed => mode_of_attributes(attrs.drop_last()),
        }
    }
}

/// Whether an attribute is keyed `apple_desktop:h24` or `apple_desktop:solar`.
pub open spec fn names_wallpaper(item: AttributeItem) -> bool {
    match item {
        AttributeItem::Parsed { key, .. } => key@ == h24_key() || key@ == solar_key(),
        AttributeItem::Malformed => false,
    }
}

/// An element describes no wallpaper exactly when none of its attributes
/// is keyed `apple_desktop:h24` or `apple_desktop:solar`.
pub proof fn lemma_no_mode_without_keys(attrs: Seq<AttributeItem>)
    ensures
        mode_of_attributes(attrs) is None <==>
            forall|i: int| 0 <= i < attrs.len() ==> !names_wallpaper(#[trigger] attrs[i]),
    decreases attrs.len(),
{
    if attrs.len() > 0 {
        let rest = attrs.drop_last();
        let last = attrs[attrs.len() - 1];
        lemma_no_mode_without_keys(rest);
        assert forall|i: int| 0 <= i < rest.len() implies #[trigger] rest[i] == attrs[i] by {}
        if names_wallpaper(last) {
            assert(mode_of_attributes(attrs) is Some);
        } else {
            assert(mode_of_attributes(attrs) == mode_of_attributes(rest));
            if forall|i: int| 0 <= i < rest.len() ==> !names_wallpaper(#[trigger] rest[i]) {
                assert forall|i: int| 0 <= i < attrs.len() implies !names_wallpaper(#[trigger] attrs[i]) by {
                    if i < rest.len() {
                        assert(rest[i] == attrs[i]);
                    }
                }
            }
        }
    }
}

/// The description found carries the whole value of the deciding
/// attribute: when attribute `i` is keyed `apple_desktop:h24` (or
/// `apple_desktop:solar`) and no later attribute has either key, the
/// description is of that kind and its text is all of attribute `i`'s value
/// read as (lossy) UTF-8, for values of any length.
pub proof fn lemma_mode_carries_whole_value(attrs: Seq<AttributeItem>, i: int)
    requires
        0 <= i < attrs.len(),
        names_wallpaper(attrs[i]),
        forall|j: int| i < j < attrs.len() ==> !names_wallpaper(#[trigger] attrs[j]),
    ensures
        match attrs[i] {
            AttributeItem::Parsed { key, value } => mode_of_attributes(attrs) == (if key@ == h24_key() {
                Some(WallPaperModeSpec::H24(utf8_lossy_text(value@)))
            } else {
                Some(WallPaperModeSpec::Solar(utf8_lossy_text(value@)))
            }),
            AttributeItem::Malformed => false,
        },
    decreases attrs.len(),
{
    if i < attrs.len() - 1 {
        let rest = attrs.drop_last();
        assert(!names_wallpaper(attrs[attrs.len() - 1]));
        assert forall|j: int| i < j < rest.len() implies !names_wallpaper(#[trigger] rest[j]) by {
            assert(rest[j] == attrs[j]);
        }
        assert(rest[i] == attrs[i]);
        lemma_mode_carries_whole_value(rest, i);
        assert(mode_of_attributes(attrs) == mode_of_attributes(rest));
    }
}

/// What a decisive event says: an empty element gives the description of
/// its attributes (an error if one of them is malformed); any other event
/// (the end of the document, a reader error) gives no description.
pub open spec fn mode_of_event(event: XmlEvent) -> Result<Option<WallPaperModeSpec>, MetadataError> {
    match event {
        XmlEvent::Empty(attrs) => {
            if attributes_parsed(attrs@) {
                Ok(mode_of_attributes(attrs@))
            } else {
                Err(MetadataError::MalformedAttribute)
            }
        },
        _ => Ok(None),
    }
}

/// What a search through the events finds: the first event that is not
/// `Other` decides (see `mode_of_event`); no description if there is none.
pub open spec fn mode_of_events(events: Seq<XmlEvent>) -> Result<Option<WallPaperModeSpec>, MetadataError> {
    let sig = significant_events(events);
    if sig.len() == 0 {
        Ok(None)
    } else {
        mode_of_event(sig[0])
    }
}

/// What the metadata block `metadata` describes.
pub open spec fn metadata_mode(metadata: Seq<u8>) -> Result<Option<WallPaperModeSpec>, MetadataError> {
    mode_of_events(xml_document_events(utf8_lossy_text(metadata)))
}

/// Byte-wise equality of two slices.
fn bytes_equal(a: &[u8], b: &[u8]) -> (eq: bool)
    ensures
        eq == (a@ == b@),
{
    if a.len() != b.len() {
        return false;
    }
    let mut i: usize = 0;
    while i < a.len()
        invariant
            a@.len() == b@.len(),
            i <= a@.len(),
            forall|j: int| 0 <= j < i ==> a@[j] == b@[j],
        decreases a@.len() - i,
    {
        if a[i] != b[i] {
            return false;
        }
        i = i + 1;
    }
    assert(a@ =~= b@);
    true
}

/// Whether every attribute of `attrs` was parsed.
pub fn all_attributes_parsed(attrs: &Vec<AttributeItem>) -> (parsed: bool)
    ensures
        parsed == attributes_parsed(attrs@),
{
    let mut i: usize = 0;
    while i < attrs.len()
        invariant
            i <= attrs@.len(),
            forall|j: int| 0 <= j < i ==> (#[trigger] attrs@[j]) is Parsed,
        decreases attrs@.len() - i,
    {
        match &attrs[i] {
            AttributeItem::Parsed { .. } => {},
            AttributeItem::Malformed => {
                return false;
            },
        }
        i = i + 1;
    }
    true
}

/// The description carried by the attributes of an element: the last
/// `apple_desktop:h24` or `apple_desktop:solar` attribute wins.
pub fn wallpaper_mode_from_attributes(attrs: &Vec<AttributeItem>) -> (mode: Option<WallPaperMode>)
    requires
        attributes_parsed(attrs@),
    ensures
        option_mode_view(mode) == mode_of_attributes(attrs@),
{
    let mut mode: Option<WallPaperMode> = None;
    let mut i: usize = 0;
    assert(attrs@.take(0) =~= Seq::<AttributeItem>::empty());
    while i < attrs.len()
        invariant
            i <= attrs@.len(),
            attributes_parsed(attrs@),
            option_mode_view(mode) == mode_of_attributes(attrs@.take(i as int)),
        decreases attrs@.len() - i,
    {
        assert(attrs@.take(i + 1).drop_last() =~= attrs@.take(i as int));
        assert(attrs@[i as int] is Parsed);
        match &attrs[i] {
            AttributeItem::Parsed { key, value } => {
                if bytes_equal(key.as_slice(), "apple_desktop:h24".as_bytes()) {
                    mode = Some(WallPaperMode::H24(utf8_lossy(value.as_slice())));
                } else if bytes_equal(key.as_slice(), "apple_desktop:solar".as_bytes()) {
                    mode = Some(WallPaperMode::Solar(utf8_lossy(value.as_slice())));
                }
            },
            AttributeItem::Malformed => {},
        }
        i = i + 1;
    }
    assert(attrs@.take(attrs@.len() as int) =~= attrs@);
    mode
}

/// What the event that ends the search says: the description of an empty
/// element's attributes (`MalformedAttribute` if the reader rejected one of
/// them), and no description for any other event.
pub fn wallpaper_mode_from_event(event: &XmlEvent) -> (found: Result<Option<WallPaperMode>, MetadataError>)
    ensures
        search_result_view(found) == mode_of_event(*event),
{
    match event {
        XmlEvent::Empty(attrs) => {
            if all_attributes_parsed(attrs) {
                Ok(wallpaper_mode_from_attributes(attrs))
            } else {
                Err(MetadataError::MalformedAttribute)
            }
        },
        _ => Ok(None),
    }
}

/// Looks for the wallpaper description in the metadata block `metadata`:
/// the block is read as (lossy) UTF-8 XML with text trimmed, events are read
/// up to the first one that is not `Other`, and that event decides (see
/// `mode_of_event`). `Ok(None)` when the document ends, or the reader fails,
/// before any empty element.
pub fn get_wallpaper_metadata(metadata: &[u8]) -> (found: Result<Option<WallPaperMode>, MetadataError>)
    ensures
        search_result_view(found) == metadata_mode(metadata@),
{
    let content = utf8_lossy(metadata);
    let mut reader = xml_reader_from_str(content.as_str());
    xml_reader_trim_text(&mut reader);
    let mut buf: Vec<u8> = Vec::new();
    loop
        invariant
            mode_of_events(pending_xml_events(reader)) == metadata_mode(metadata@),
        decreases pending_xml_events(reader).len(),
    {
        let ghost before = pending_xml_events(reader);
        let event = xml_reader_next_event(&mut reader, &mut buf);
        proof {
            if before.len() > 0 {
                assert(significant_events(before) == (if before[0] is Other {
                    significant_events(before.drop_first())
                } else {
                    seq![before[0]] + significant_events(before.drop_first())
                }));
            }
        }
        match event {
            XmlEvent::Other => {},
            _ => {
                return wallpaper_mode_from_event(&event);
            },
        }
    }
}

#[verifier::external_type_specification]
#[verifier::external_body]
pub struct ExBase64DecodeError(base64::DecodeError);

/// What `base64::decode` (standard alphabet, padded) makes of the text
/// `input`: the decoded bytes, or none when the input is not valid base64.
pub uninterp spec fn base64_decoding(input: Seq<char>) -> Option<Seq<u8>>;

/// Calls `base64::decode` on the bytes of `input`. The claim: success and
/// the decoded bytes are a function of the input. The crate panics when the
/// length computation overflows, which the `requires` rules out.
#[verifier::external_body]
fn base64_decode(input: &str) -> (decoded: Result<Vec<u8>, base64::DecodeError>)
    requires
        input.spec_bytes().len() + 8 <= usize::MAX,
    ensures
        decoded is Ok <==> base64_decoding(input@) is Some,
        decoded matches Ok(bytes) ==> bytes@ == base64_decoding(input@).unwrap(),
{
    base64::decode(input)
}

/// The payload of a description: its base64 decoding, or `InvalidBase64`.
pub open spec fn plist_payload(input: Seq<char>) -> Result<Seq<u8>, MetadataError> {
    match base64_decoding(input) {
        Some(bytes) => Ok(bytes),
        None => Err(MetadataError::InvalidBase64),
    }
}

/// A description decodes to what base64 decoding gives: whenever the text is
/// valid base64 the payload is its decoding, whatever its length, and
/// `InvalidBase64` is the answer only for text that is not valid base64.
pub proof fn lemma_payload_is_base64_decoding(input: Seq<char>)
    ensures
        base64_decoding(input) matches Some(bytes) ==> plist_payload(input) == Ok::<Seq<u8>, MetadataError>(bytes),
        plist_payload(input) is Err <==> base64_decoding(input) is None,
{
}

/// Decodes the base64 text of a description into the bytes of its property
/// list (the list itself is read by the caller).
pub fn decode_plist_payload(input: &str) -> (payload: Result<Vec<u8>, MetadataError>)
    requires
        input.spec_bytes().len() + 8 <= usize::MAX,
    ensures
        match payload {
            Ok(bytes) => plist_payload(input@) == Ok::<Seq<u8>, MetadataError>(bytes@),
            Err(e) => plist_payload(input@) == Err::<Seq<u8>, MetadataError>(e),
        },
        base64_decoding(input@) matches Some(bytes) ==> payload matches Ok(out) && out@ == bytes,
        payload is Err <==> base64_decoding(input@) is None,
{
    match base64_decode(input) {
        Ok(bytes) => Ok(bytes),
        Err(_) => Err(MetadataError::InvalidBase64),
    }
}

} // verus!
