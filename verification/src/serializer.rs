//! Rendering a background as the GNOME background XML definition.
use vstd::prelude::*;
use crate::schema::xml::{Background, Image, StartTime};

verus! {

/// The text of a decimal digit.
pub open spec fn digit_text(d: nat) -> Seq<char> {
    if d == 0 { "0"@ }
    else if d == 1 { "1"@ }
    else if d == 2 { "2"@ }
    else if d == 3 { "3"@ }
    else if d == 4 { "4"@ }
    else if d == 5 { "5"@ }
    else if d == 6 { "6"@ }
    else if d == 7 { "7"@ }
    else if d == 8 { "8"@ }
    else { "9"@ }
}

/// The decimal text of `n`, without leading zeros.
pub open spec fn decimal_text(n: nat) -> Seq<char>
    decreases n,
{
    if n < 10 {
        digit_text(n)
    } else {
        decimal_text(n / 10) + digit_text(n % 10)
    }
}

/// The decimal text of an integer: a minus sign before the digits of a
/// negative number.
pub open spec fn signed_decimal_text(n: int) -> Seq<char> {
    if n < 0 {
        "-"@ + decimal_text((-n) as nat)
    } else {
        decimal_text(n as nat)
    }
}

/// One line `\t\t<tag>value</tag>`.
pub open spec fn field_line(open_tag: Seq<char>, value: Seq<char>, close_tag: Seq<char>) -> Seq<char> {
    open_tag + value + close_tag
}

/// The opening of the definition, up to and including the start time.
pub open spec fn starttime_text(st: StartTime) -> Seq<char> {
    "<background>\n"@
        + "\t<starttime>\n"@
        + field_line("\t\t<year>"@, signed_decimal_text(st.year as int), "</year>\n"@)
        + field_line("\t\t<month>"@, decimal_text(st.month as nat), "</month>\n"@)
        + field_line("\t\t<day>"@, decimal_text(st.day as nat), "</day>\n"@)
        + field_line("\t\t<hour>"@, decimal_text(st.hour as nat), "</hour>\n"@)
        + field_line("\t\t<minute>"@, decimal_text(st.minute as nat), "</minute>\n"@)
        + field_line("\t\t<second>"@, decimal_text(st.second as nat), "</second>\n"@)
        + "\t</starttime>\n"@
}

/// The text of one entry of the cycle.
pub open spec fn image_text(image: Image) -> Seq<char> {
    match image {
        Image::Static { duration, file, .. } => {
            "\t<static>\n"@
                + field_line("\t\t<duration>"@, duration@, "</duration>\n"@)
                + field_line("\t\t<file>"@, file@, "</file>\n"@)
                + "\t</static>\n"@
        },
        Image::Transition { kind, duration, from, to, .. } => {
            field_line("\t<transition type=\""@, kind@, "\">\n"@)
                + field_line("\t\t<duration>"@, duration@, "</duration>\n"@)
                + field_line("\t\t<from>"@, from@, "</from>\n"@)
                + field_line("\t\t<to>"@, to@, "</to>\n"@)
                + "\t</transition>\n"@
        },
    }
}

/// The texts of the entries, one after the other.
pub open spec fn images_text(images: Seq<Image>) -> Seq<char>
    decreases images.len(),
{
    if images.len() == 0 {
        Seq::empty()
    } else {
        images_text(images.drop_last()) + image_text(images.last())
    }
}

/// The entries of a cycle split in two are rendered as the first part
/// followed by the second.
pub proof fn lemma_images_text_concat(first: Seq<Image>, second: Seq<Image>)
    ensures
        images_text(first + second) == images_text(first) + images_text(second),
    decreases second.len(),
{
    if second.len() == 0 {
        assert(first + second =~= first);
        assert(images_text(second) =~= Seq::<char>::empty());
        assert(images_text(first) + images_text(second) =~= images_text(first));
    } else {
        lemma_images_text_concat(first, second.drop_last());
        assert((first + second).drop_last() =~= first + second.drop_last());
        assert((first + second).last() == second.last());
        assert(images_text(first + second) =~= images_text(first) + images_text(second));
    }
}

/// The whole definition of a background.
pub open spec fn background_text(bg: Background) -> Seq<char> {
    starttime_text(bg.starttime) + images_text(bg.images@) + "</background>"@
}

/// The text of the digit `d` (below 10).
fn digit_str(d: u64) -> (s: &'static str)
    requires
        d < 10,
    ensures
        s@ == digit_text(d as nat),
{
    if d == 0 { "0" }
    else if d == 1 { "1" }
    else if d == 2 { "2" }
    else if d == 3 { "3" }
    else if d == 4 { "4" }
    else if d == 5 { "5" }
    else if d == 6 { "6" }
    else if d == 7 { "7" }
    else if d == 8 { "8" }
    else { "9" }
}

/// Appends the decimal text of `n` to `out`.
pub fn append_decimal(out: &mut String, n: u64)
    ensures
        final(out)@ == old(out)@ + decimal_text(n as nat),
    decreases n,
{
    if n >= 10 {
        append_decimal(out, n / 10);
    }
    out.append(digit_str(n % 10));
    assert(n >= 10 ==> decimal_text(n as nat) == decimal_text((n / 10) as nat) + digit_text((n % 10) as nat));
}

/// Appends the decimal text of the integer `n` to `out`.
pub fn append_signed_decimal(out: &mut String, n: i64)
    ensures
        final(out)@ == old(out)@ + signed_decimal_text(n as int),
{
    if n < 0 {
        out.append("-");
        let magnitude: u64 = if n == i64::MIN {
            9223372036854775808u64
        } else {
            (-n) as u64
        };
        append_decimal(out, magnitude);
    } else {
        append_decimal(out, n as u64);
    }
}

/// Writes GNOME background definitions into a text buffer; the caller
/// passes the buffer in and takes it back with `into_inner`.
pub struct GnomeXMLBackgroundSerializer {
    writer: String,
}

impl View for GnomeXMLBackgroundSerializer {
    type V = Seq<char>;

    /// The text written so far.
    closed spec fn view(&self) -> Seq<char> {
        self.writer@
    }
}

impl GnomeXMLBackgroundSerializer {
    /// A serializer that appends to `writer`.
    pub fn new(writer: String) -> (serializer: Self)
        ensures
            serializer@ == writer@,
    {
        Self { writer }
    }

    /// The text written so far, including what `writer` held.
    pub fn into_inner(self) -> (text: String)
        ensures
            text@ == self@,
    {
        self.writer
    }

    /// Appends one `\t\t<tag>number</tag>\n` line.
    fn write_number_line(&mut self, open_tag: &str, n: u64, close_tag: &str)
        ensures
            final(self)@ == old(self)@ + field_line(open_tag@, decimal_text(n as nat), close_tag@),
    {
        self.writer.append(open_tag);
        append_decimal(&mut self.writer, n);
        self.writer.append(close_tag);
    }

    /// Appends one line with a text value.
    fn write_text_line(&mut self, open_tag: &str, value: &str, close_tag: &str)
        ensures
            final(self)@ == old(self)@ + field_line(open_tag@, value@, close_tag@),
    {
        self.writer.append(open_tag);
        self.writer.append(value);
        self.writer.append(close_tag);
    }

    /// Appends the opening of the definition and its start time.
    fn write_starttime(&mut self, st: &StartTime)
        ensures
            final(self)@ == old(self)@ + starttime_text(*st),
    {
        let ghost start = self@;
        self.writer.append("<background>\n");
        self.writer.append("\t<starttime>\n");
        self.writer.append("\t\t<year>");
        append_signed_decimal(&mut self.writer, st.year as i64);
        self.writer.append("</year>\n");
        self.write_number_line("\t\t<month>", st.month as u64, "</month>\n");
        self.write_number_line("\t\t<day>", st.day as u64, "</day>\n");
        self.write_number_line("\t\t<hour>", st.hour as u64, "</hour>\n");
        self.write_number_line("\t\t<minute>", st.minute as u64, "</minute>\n");
        self.write_number_line("\t\t<second>", st.second as u64, "</second>\n");
        self.writer.append("\t</starttime>\n");
        assert(self@ =~= start + starttime_text(*st));
    }

    /// Appends one entry of the cycle.
    fn write_image(&mut self, image: &Image)
        ensures
            final(self)@ == old(self)@ + image_text(*image),
    {
        let ghost start = self@;
        match image {
            Image::Static { duration, file, .. } => {
                self.writer.append("\t<static>\n");
                self.write_text_line("\t\t<duration>", duration.as_str(), "</duration>\n");
                self.write_text_line("\t\t<file>", file.as_str(), "</file>\n");
                self.writer.append("\t</static>\n");
            },
            Image::Transition { kind, duration, from, to, .. } => {
                self.write_text_line("\t<transition type=\"", kind.as_str(), "\">\n");
                self.write_text_line("\t\t<duration>", duration.as_str(), "</duration>\n");
                self.write_text_line("\t\t<from>", from.as_str(), "</from>\n");
                self.write_text_line("\t\t<to>", to.as_str(), "</to>\n");
                self.writer.append("\t</transition>\n");
            },
        }
        assert(self@ =~= start + image_text(*image));
    }

    /// Appends the whole definition of `background`: the start time, every
    /// image in order, and the closing tag (with no line break after it).
    pub fn serialize(&mut self, background: &Background)
        ensures
            final(self)@ == old(self)@ + background_text(*background),
    {
        let ghost start = self@;
        self.write_starttime(&background.starttime);
        let mut i: usize = 0;
        assert(background.images@.take(0) =~= Seq::<Image>::empty());
        while i < background.images.len()
            invariant
                i <= background.images@.len(),
                self@ == start + starttime_text(background.starttime)
                    + images_text(background.images@.take(i as int)),
            decreases background.images@.len() - i,
        {
            let ghost before = self@;
            self.write_image(&background.images[i]);
            assert(background.images@.take(i + 1).drop_last() =~= background.images@.take(i as int));
            assert(self@ =~= start + starttime_text(background.starttime)
                + images_text(background.images@.take(i + 1)));
            i = i + 1;
        }
        assert(background.images@.take(background.images@.len() as int) =~= background.images@);
        self.writer.append("</background>");
        assert(self@ =~= start + background_text(*background));
    }
}

} // verus!
