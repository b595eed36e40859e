# heic-to-dynamic-gnome-wallpaper

Converts macOS dynamic wallpapers (`.heic` containers with an Apple
description in their metadata) into GNOME background definitions.

- `src/` is the verified library (Verus):
  - `metadata`: finds the `apple_desktop:h24` / `apple_desktop:solar`
    description in the image's XMP metadata block and decodes its base64
    payload; `xml_events` presents the `quick_xml` reader as a stream of events.
  - `timebased`: orders time slices (stable, by the numeric value of their
    `f32` times), computes the start time and plans which image each slice shows.
  - `serializer`: renders a `Background` as the GNOME XML definition.
  - `util`: clock arithmetic; `util::png` selects the pixel bytes of
    decoded colour planes whose rows may carry padding.
- `app/` is the command line program: argument handling, HEIF decoding
  (libheif), property-list parsing (serde/plist), fractions of a day, and
  writing PNG and XML files.
- `tests/` exercises the library on concrete values.
