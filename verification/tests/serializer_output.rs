use heic_to_dynamic_gnome_wallpaper::schema::xml::{Background, Image, StartTime};
use heic_to_dynamic_gnome_wallpaper::serializer::{append_decimal, append_signed_decimal, GnomeXMLBackgroundSerializer};

fn start() -> StartTime {
    StartTime { year: 2011, month: 10, day: 1, hour: 6, minute: 30, second: 0 }
}

const HEADER: &str = "<background>\n\t<starttime>\n\t\t<year>2011</year>\n\t\t<month>10</month>\n\t\t<day>1</day>\n\t\t<hour>6</hour>\n\t\t<minute>30</minute>\n\t\t<second>0</second>\n\t</starttime>\n";

#[test]
fn serializes_empty_cycle() {
    let bg = Background { starttime: start(), images: Vec::new() };
    let mut s = GnomeXMLBackgroundSerializer::new(String::new());
    s.serialize(&bg);
    assert_eq!(s.into_inner(), format!("{}</background>", HEADER));
}

#[test]
fn serializes_static_and_transition_entries() {
    let bg = Background {
        starttime: start(),
        images: vec![
            Image::Static { duration: "1795".to_string(), file: "/tmp/0.png".to_string(), idx: 0 },
            Image::Transition {
                kind: "overlay".to_string(),
                duration: "5".to_string(),
                from: "/tmp/0.png".to_string(),
                to: "/tmp/1.png".to_string(),
                idx: 0,
            },
        ],
    };
    let mut s = GnomeXMLBackgroundSerializer::new(String::new());
    s.serialize(&bg);
    let expected = format!(
        "{}\t<static>\n\t\t<duration>1795</duration>\n\t\t<file>/tmp/0.png</file>\n\t</static>\n\t<transition type=\"overlay\">\n\t\t<duration>5</duration>\n\t\t<from>/tmp/0.png</from>\n\t\t<to>/tmp/1.png</to>\n\t</transition>\n</background>",
        HEADER
    );
    assert_eq!(s.into_inner(), expected);
}

#[test]
fn serializer_appends_to_given_buffer() {
    let bg = Background { starttime: start(), images: Vec::new() };
    let mut s = GnomeXMLBackgroundSerializer::new("prefix".to_string());
    s.serialize(&bg);
    s.serialize(&bg);
    let one = format!("{}</background>", HEADER);
    assert_eq!(s.into_inner(), format!("prefix{}{}", one, one));
}

#[test]
fn negative_and_extreme_start_fields() {
    let bg = Background {
        starttime: StartTime { year: -12, month: 4294967295, day: 0, hour: 65535, minute: 0, second: 9 },
        images: Vec::new(),
    };
    let mut s = GnomeXMLBackgroundSerializer::new(String::new());
    s.serialize(&bg);
    let text = s.into_inner();
    assert!(text.contains("\t\t<year>-12</year>\n"));
    assert!(text.contains("\t\t<month>4294967295</month>\n"));
    assert!(text.contains("\t\t<day>0</day>\n"));
    assert!(text.contains("\t\t<hour>65535</hour>\n"));
    assert!(text.ends_with("</starttime>\n</background>"));
}

#[test]
fn decimal_text_matches_display() {
    for n in [0u64, 7, 10, 99, 100, 2011, 123456789, u64::MAX] {
        let mut s = String::new();
        append_decimal(&mut s, n);
        assert_eq!(s, n.to_string());
    }
    for n in [0i64, -1, -10, 42, i64::MIN, i64::MAX] {
        let mut s = String::new();
        append_signed_decimal(&mut s, n);
        assert_eq!(s, n.to_string());
    }
}

#[test]
fn cycle_split_in_two_renders_in_order() {
    let img = |name: &str| Image::Static { duration: "10".to_string(), file: name.to_string(), idx: 0 };
    let whole = Background { starttime: start(), images: vec![img("a"), img("b"), img("c")] };
    let mut s = GnomeXMLBackgroundSerializer::new(String::new());
    s.serialize(&whole);
    let text = s.into_inner();
    let a = text.find("<file>a</file>").unwrap();
    let b = text.find("<file>b</file>").unwrap();
    let c = text.find("<file>c</file>").unwrap();
    assert!(a < b && b < c);
    assert_eq!(text.matches("<starttime>").count(), 1);
}
