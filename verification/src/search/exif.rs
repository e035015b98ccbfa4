//! What cameras write into images.

use vstd::prelude::*;
use vstd::string::*;

use crate::models::{clone_optional, optional_text};
use crate::paths::{extension_lower, lower_extension};
use crate::text::{
    chars_of, decimal, decimal_text, has_text, join, join_texts, joined, joined3,
    joined_text_has_parts, occurs_at, replace_char, replaced, same_text, strip, text_between, texts, trim, trim_of, trimmed, Strip,
};

verus! {

/// A fraction.
#[derive(Clone, Copy, Debug, PartialEq, Eq, Structural)]
pub struct Rational {
    pub num: u32,
    pub denom: u32,
}

/// What a field is about.
#[derive(Clone, Copy, Debug, PartialEq, Eq, Structural)]
pub enum ExifTag {
    Make,
    Model,
    LensModel,
    FocalLength,
    FNumber,
    PhotographicSensitivity,
    ExposureTime,
    DateTimeOriginal,
    GpsLatitude,
    GpsLatitudeRef,
    GpsLongitude,
    GpsLongitudeRef,
    GpsAltitude,
    PixelXDimension,
    PixelYDimension,
}

/// The value of a field.
#[derive(Debug)]
pub enum ExifValue {
    Short(Vec<u16>),
    Long(Vec<u32>),
    Rational(Vec<Rational>),
    Other,
}

/// A field of the EXIF data of an image.
#[derive(Debug)]
pub struct ExifField {
    /// What the field is about.
    pub tag: ExifTag,
    /// The value as it is shown to people.
    pub text: String,
    /// The value.
    pub value: ExifValue,
}

/// The value of a field, as numbers.
pub enum ValueView {
    Short(Seq<u16>),
    Long(Seq<u32>),
    Rational(Seq<Rational>),
    Other,
}

impl View for ExifValue {
    type V = ValueView;

    open spec fn view(&self) -> ValueView {
        match *self {
            ExifValue::Short(v) => ValueView::Short(v@),
            ExifValue::Long(v) => ValueView::Long(v@),
            ExifValue::Rational(v) => ValueView::Rational(v@),
            ExifValue::Other => ValueView::Other,
        }
    }
}

/// A field without its tag, as text and numbers.
pub struct FieldView {
    pub text: Seq<char>,
    pub value: ValueView,
}

impl ExifField {
    /// What the field says, whatever it is about.
    pub open spec fn content(self) -> FieldView {
        FieldView { text: self.text@, value: self.value@ }
    }
}

/// A position on one axis: degrees, minutes and seconds, and whether it counts
/// as negative.
#[derive(Clone, Copy, Debug, PartialEq, Eq, Structural)]
pub struct GpsCoordinate {
    pub degrees: Rational,
    pub minutes: Rational,
    pub seconds: Rational,
    pub negative: bool,
}

/// What is known of a media file.
#[derive(Debug)]
pub struct MediaMetadata {
    pub camera_make: Option<String>,
    pub camera_model: Option<String>,
    pub lens_model: Option<String>,
    pub focal_length_mm: Option<Rational>,
    pub f_number: Option<Rational>,
    pub iso: Option<u32>,
    pub exposure_time: Option<String>,
    pub date_taken: Option<String>,
    pub gps_latitude: Option<GpsCoordinate>,
    pub gps_longitude: Option<GpsCoordinate>,
    pub gps_altitude_m: Option<Rational>,
    pub width_px: Option<u32>,
    pub height_px: Option<u32>,
    /// All of the above in one text, for searching.
    pub searchable_text: String,
}

/// What is known of a media file, as texts and numbers.
#[verifier::ext_equal]
pub struct MetadataView {
    pub camera_make: Option<Seq<char>>,
    pub camera_model: Option<Seq<char>>,
    pub lens_model: Option<Seq<char>>,
    pub focal_length_mm: Option<Rational>,
    pub f_number: Option<Rational>,
    pub iso: Option<u32>,
    pub exposure_time: Option<Seq<char>>,
    pub date_taken: Option<Seq<char>>,
    pub gps_latitude: Option<GpsCoordinate>,
    pub gps_longitude: Option<GpsCoordinate>,
    pub gps_altitude_m: Option<Rational>,
    pub width_px: Option<u32>,
    pub height_px: Option<u32>,
    pub searchable_text: Seq<char>,
}

impl View for MediaMetadata {
    type V = MetadataView;

    open spec fn view(&self) -> MetadataView {
        MetadataView {
            camera_make: optional_text(self.camera_make),
            camera_model: optional_text(self.camera_model),
            lens_model: optional_text(self.lens_model),
            focal_length_mm: self.focal_length_mm,
            f_number: self.f_number,
            iso: self.iso,
            exposure_time: optional_text(self.exposure_time),
            date_taken: optional_text(self.date_taken),
            gps_latitude: self.gps_latitude,
            gps_longitude: self.gps_longitude,
            gps_altitude_m: self.gps_altitude_m,
            width_px: self.width_px,
            height_px: self.height_px,
            searchable_text: self.searchable_text@,
        }
    }
}

/// Nothing known of a media file.
pub open spec fn nothing_known() -> MetadataView {
    MetadataView {
        camera_make: None,
        camera_model: None,
        lens_model: None,
        focal_length_mm: None,
        f_number: None,
        iso: None,
        exposure_time: None,
        date_taken: None,
        gps_latitude: None,
        gps_longitude: None,
        gps_altitude_m: None,
        width_px: None,
        height_px: None,
        searchable_text: Seq::empty(),
    }
}

impl Default for MediaMetadata {
    fn default() -> (r: Self)
        ensures
            r@ == nothing_known(),
    {
        MediaMetadata {
            camera_make: None,
            camera_model: None,
            lens_model: None,
            focal_length_mm: None,
            f_number: None,
            iso: None,
            exposure_time: None,
            date_taken: None,
            gps_latitude: None,
            gps_longitude: None,
            gps_altitude_m: None,
            width_px: None,
            height_px: None,
            searchable_text: String::new(),
        }
    }
}

/// The numbers of the metadata that need not be whole, as they are written: the
/// coordinates with four digits behind the point, the others as short as they
/// can be.
#[derive(Debug)]
pub struct NumberTexts {
    pub focal_length_mm: Option<String>,
    pub f_number: Option<String>,
    pub gps_latitude: Option<String>,
    pub gps_longitude: Option<String>,
    pub gps_altitude_m: Option<String>,
}

impl Default for NumberTexts {
    fn default() -> (r: Self)
        ensures
            r.focal_length_mm is None,
            r.f_number is None,
            r.gps_latitude is None,
            r.gps_longitude is None,
            r.gps_altitude_m is None,
    {
        NumberTexts {
            focal_length_mm: None,
            f_number: None,
            gps_latitude: None,
            gps_longitude: None,
            gps_altitude_m: None,
        }
    }
}

/// Whether the numbers that the metadata holds are written out.
pub open spec fn written_out(meta: MetadataView, numbers: NumberTexts) -> bool {
    &&& meta.focal_length_mm is Some ==> numbers.focal_length_mm is Some
    &&& meta.f_number is Some ==> numbers.f_number is Some
    &&& meta.gps_latitude is Some ==> numbers.gps_latitude is Some
    &&& meta.gps_longitude is Some ==> numbers.gps_longitude is Some
    &&& meta.gps_altitude_m is Some ==> numbers.gps_altitude_m is Some
}

/// A list of one text, or of none: an empty text is left out.
pub open spec fn one_or_none(part: Option<Seq<char>>) -> Seq<Seq<char>> {
    match part {
        Some(t) if t.len() > 0 => seq![t],
        _ => Seq::empty(),
    }
}

/// A text between two others, where it is there.
pub open spec fn wrapped(before: Seq<char>, part: Option<Seq<char>>, after: Seq<char>) -> Option<Seq<char>> {
    match part {
        Some(t) => Some(before + t + after),
        None => None,
    }
}

/// The text of a number that is there.
pub open spec fn text_if<T>(there: Option<T>, text: Option<String>) -> Option<Seq<char>> {
    if there is Some {
        optional_text(text)
    } else {
        None
    }
}

/// A whole number as a text, where it is there.
pub open spec fn number(n: Option<u32>) -> Option<Seq<char>> {
    match n {
        Some(k) => Some(decimal(k as nat)),
        None => None,
    }
}

/// The parts of the searchable text.
pub open spec fn search_parts(meta: MetadataView, numbers: NumberTexts) -> Seq<Seq<char>> {
    one_or_none(meta.camera_make) + one_or_none(meta.camera_model) + one_or_none(meta.lens_model)
        + one_or_none(meta.date_taken) + one_or_none(
        wrapped("lat:"@, text_if(meta.gps_latitude, numbers.gps_latitude), Seq::empty()),
    ) + one_or_none(
        wrapped("lon:"@, text_if(meta.gps_longitude, numbers.gps_longitude), Seq::empty()),
    ) + one_or_none(
        wrapped("alt:"@, text_if(meta.gps_altitude_m, numbers.gps_altitude_m), "m"@),
    ) + one_or_none(
        wrapped(Seq::empty(), text_if(meta.focal_length_mm, numbers.focal_length_mm), "mm"@),
    ) + one_or_none(wrapped("f/"@, text_if(meta.f_number, numbers.f_number), Seq::empty()))
        + one_or_none(wrapped("ISO"@, number(meta.iso), Seq::empty())) + one_or_none(
        meta.exposure_time,
    ) + one_or_none(wrapped(Seq::empty(), number(meta.width_px), "px"@)) + one_or_none(
        wrapped(Seq::empty(), number(meta.height_px), "px"@),
    )
}

/// The metadata with its searchable text.
pub open spec fn made_searchable(meta: MetadataView, numbers: NumberTexts) -> MetadataView {
    MetadataView { searchable_text: join(search_parts(meta, numbers), seq![' ']), ..meta }
}

/// Every part stands in the searchable text.
pub proof fn every_part_is_searchable(meta: MetadataView, numbers: NumberTexts, i: int)
    requires
        0 <= i < search_parts(meta, numbers).len(),
    ensures
        has_text(made_searchable(meta, numbers).searchable_text, search_parts(meta, numbers)[i]),
{
    joined_text_has_parts(search_parts(meta, numbers), seq![' '], i);
}

/// Metadata that holds any number has a text to search for.
pub proof fn numbers_are_searchable(meta: MetadataView, numbers: NumberTexts)
    requires
        written_out(meta, numbers),
        meta.gps_latitude is Some || meta.gps_longitude is Some || meta.gps_altitude_m is Some
            || meta.focal_length_mm is Some || meta.f_number is Some || meta.iso is Some
            || meta.width_px is Some || meta.height_px is Some,
    ensures
        made_searchable(meta, numbers).searchable_text.len() > 0,
{
    reveal_strlit("lat:");
    reveal_strlit("lon:");
    reveal_strlit("alt:");
    reveal_strlit("mm");
    reveal_strlit("f/");
    reveal_strlit("ISO");
    reveal_strlit("px");
    let parts = search_parts(meta, numbers);
    let names = one_or_none(meta.camera_make) + one_or_none(meta.camera_model) + one_or_none(
        meta.lens_model,
    ) + one_or_none(meta.date_taken);
    let lat = one_or_none(
        wrapped("lat:"@, text_if(meta.gps_latitude, numbers.gps_latitude), Seq::empty()),
    );
    let lon = one_or_none(
        wrapped("lon:"@, text_if(meta.gps_longitude, numbers.gps_longitude), Seq::empty()),
    );
    let alt = one_or_none(
        wrapped("alt:"@, text_if(meta.gps_altitude_m, numbers.gps_altitude_m), "m"@),
    );
    let focal = one_or_none(
        wrapped(Seq::empty(), text_if(meta.focal_length_mm, numbers.focal_length_mm), "mm"@),
    );
    let stop = one_or_none(wrapped("f/"@, text_if(meta.f_number, numbers.f_number), Seq::empty()));
    let iso = one_or_none(wrapped("ISO"@, number(meta.iso), Seq::empty()));
    let exposure = one_or_none(meta.exposure_time);
    let width = one_or_none(wrapped(Seq::empty(), number(meta.width_px), "px"@));
    let height = one_or_none(wrapped(Seq::empty(), number(meta.height_px), "px"@));
    assert(parts == names + lat + lon + alt + focal + stop + iso + exposure + width + height);
    let at = names.len() as int;
    let i = if lat.len() > 0 {
        at
    } else if lon.len() > 0 {
        at + lat.len()
    } else if alt.len() > 0 {
        at + lat.len() + lon.len()
    } else if focal.len() > 0 {
        at + lat.len() + lon.len() + alt.len()
    } else if stop.len() > 0 {
        at + lat.len() + lon.len() + alt.len() + focal.len()
    } else if iso.len() > 0 {
        at + lat.len() + lon.len() + alt.len() + focal.len() + stop.len()
    } else if width.len() > 0 {
        at + lat.len() + lon.len() + alt.len() + focal.len() + stop.len() + iso.len() + exposure.len()
    } else {
        at + lat.len() + lon.len() + alt.len() + focal.len() + stop.len() + iso.len() + exposure.len()
            + width.len()
    };
    assert(parts[i].len() > 0);
    every_part_is_searchable(meta, numbers, i);
    let text = made_searchable(meta, numbers).searchable_text;
    let k = choose|k: int| occurs_at(text, parts[i], k);
    assert(k + parts[i].len() <= text.len());
}

fn push_part(parts: &mut Vec<String>, part: Option<String>)
    ensures
        texts(final(parts)@) == texts(old(parts)@) + one_or_none(optional_text(part)),
{
    assert(texts(parts@) + Seq::<Seq<char>>::empty() == texts(parts@));
    if let Some(t) = part {
        if !t.as_str().is_empty() {
            assert(texts(parts@.push(t)) == texts(parts@) + seq![t@]);
            parts.push(t);
        }
    }
}

fn wrap(before: &str, part: &Option<String>, after: &str) -> (r: Option<String>)
    ensures
        optional_text(r) == wrapped(before@, optional_text(*part), after@),
{
    match part {
        Some(t) => Some(joined3(before, t.as_str(), after)),
        None => None,
    }
}

fn wrap_number(before: &str, n: Option<u32>, after: &str) -> (r: Option<String>)
    ensures
        optional_text(r) == wrapped(before@, number(n), after@),
{
    match n {
        Some(k) => Some(joined3(before, decimal_text(k as u64).as_str(), after)),
        None => None,
    }
}

fn kept_if(there: bool, text: &Option<String>) -> (r: Option<String>)
    ensures
        optional_text(r) == if there {
            optional_text(*text)
        } else {
            None
        },
{
    if there {
        clone_optional(text)
    } else {
        None
    }
}

impl MediaMetadata {
    /// Fills in the searchable text from the rest.
    pub fn build_searchable_text(&mut self, numbers: &NumberTexts)
        requires
            written_out(old(self)@, *numbers),
        ensures
            final(self)@ == made_searchable(old(self)@, *numbers),
    {
        proof {
            reveal_strlit("");
            reveal_strlit(" ");
            assert(""@ == Seq::<char>::empty());
            assert(" "@ == seq![' ']);
        }
        let mut parts: Vec<String> = Vec::new();
        assert(texts(parts@) == Seq::<Seq<char>>::empty());
        assert(Seq::<Seq<char>>::empty() + one_or_none(self@.camera_make) == one_or_none(self@.camera_make));
        push_part(&mut parts, clone_optional(&self.camera_make));
        push_part(&mut parts, clone_optional(&self.camera_model));
        push_part(&mut parts, clone_optional(&self.lens_model));
        push_part(&mut parts, clone_optional(&self.date_taken));
        let lat: Option<String> = kept_if(self.gps_latitude.is_some(), &numbers.gps_latitude);
        push_part(&mut parts, wrap("lat:", &lat, ""));
        let lon: Option<String> = kept_if(self.gps_longitude.is_some(), &numbers.gps_longitude);
        push_part(&mut parts, wrap("lon:", &lon, ""));
        let alt: Option<String> = kept_if(self.gps_altitude_m.is_some(), &numbers.gps_altitude_m);
        push_part(&mut parts, wrap("alt:", &alt, "m"));
        let focal: Option<String> = kept_if(self.focal_length_mm.is_some(), &numbers.focal_length_mm);
        push_part(&mut parts, wrap("", &focal, "mm"));
        let stop: Option<String> = kept_if(self.f_number.is_some(), &numbers.f_number);
        push_part(&mut parts, wrap("f/", &stop, ""));
        push_part(&mut parts, wrap_number("ISO", self.iso, ""));
        push_part(&mut parts, clone_optional(&self.exposure_time));
        push_part(&mut parts, wrap_number("", self.width_px, "px"));
        push_part(&mut parts, wrap_number("", self.height_px, "px"));
        self.searchable_text = join_texts(&parts, " ");
    }
}

// ---------------------------------------------------------------------------
// Fields
// ---------------------------------------------------------------------------

/// The first field about `tag`.
pub open spec fn field_of(fields: Seq<ExifField>, tag: ExifTag) -> Option<FieldView>
    decreases fields.len(),
{
    if fields.len() == 0 {
        None
    } else if fields[0].tag == tag {
        Some(fields[0].content())
    } else {
        field_of(fields.drop_first(), tag)
    }
}

/// What each tag is about: of each, the first field.
pub open spec fn by_tag(fields: Seq<ExifField>) -> Map<ExifTag, FieldView> {
    Map::new(|t: ExifTag| field_of(fields, t) is Some, |t: ExifTag| field_of(fields, t)->0)
}

/// The field about `tag`, if there is one.
pub open spec fn lookup(fields: Map<ExifTag, FieldView>, tag: ExifTag) -> Option<FieldView> {
    if fields.contains_key(tag) {
        Some(fields[tag])
    } else {
        None
    }
}

fn get_field(fields: &Vec<ExifField>, tag: ExifTag) -> (r: Option<&ExifField>)
    ensures
        match r {
            Some(f) => lookup(by_tag(fields@), tag) == Some(f.content()),
            None => lookup(by_tag(fields@), tag) is None,
        },
{
    let mut i: usize = 0;
    assert(fields@.skip(0) == fields@);
    while i < fields.len()
        invariant
            i <= fields@.len(),
            field_of(fields@, tag) == field_of(fields@.skip(i as int), tag),
        decreases fields@.len() - i,
    {
        if fields[i].tag == tag {
            return Some(&fields[i]);
        }
        assert(fields@.skip(i as int).drop_first() == fields@.skip(i + 1));
        i = i + 1;
    }
    None
}

/// The text of a field without quotes and white space around it.
pub open spec fn plain(text: Seq<char>) -> Seq<char> {
    trimmed(strip(text, Strip::Only('"')))
}

/// The text of a field without quotes and white space around it.
pub fn field_to_string(field: &ExifField) -> (r: String)
    ensures
        r@ == plain(field.text@),
{
    trim(trim_of(field.text.as_str(), Strip::Only('"')).as_str())
}

/// The first fraction of a field, unless its denominator is 0.
pub open spec fn fraction(field: FieldView) -> Option<Rational> {
    match field.value {
        ValueView::Rational(v) => if v.len() > 0 && v[0].denom != 0 {
            Some(v[0])
        } else {
            None
        },
        _ => None,
    }
}

/// The first fraction of a field, unless its denominator is 0.
pub fn field_to_rational(field: &ExifField) -> (r: Option<Rational>)
    ensures
        r == fraction(field.content()),
{
    match &field.value {
        ExifValue::Rational(v) => if v.len() > 0 && v[0].denom != 0 {
            Some(v[0])
        } else {
            None
        },
        _ => None,
    }
}

/// The first number of a field of whole numbers.
pub open spec fn whole(field: FieldView) -> Option<u32> {
    match field.value {
        ValueView::Short(v) => if v.len() > 0 {
            Some(v[0] as u32)
        } else {
            None
        },
        ValueView::Long(v) => if v.len() > 0 {
            Some(v[0])
        } else {
            None
        },
        _ => None,
    }
}

/// The first number of a field of whole numbers.
pub fn field_to_u32(field: &ExifField) -> (r: Option<u32>)
    ensures
        r == whole(field.content()),
{
    match &field.value {
        ExifValue::Short(v) => if v.len() > 0 {
            Some(v[0] as u32)
        } else {
            None
        },
        ExifValue::Long(v) => if v.len() > 0 {
            Some(v[0])
        } else {
            None
        },
        _ => None,
    }
}

/// The sensitivity in a field: the first of its short numbers.
pub open spec fn sensitivity(field: FieldView) -> Option<u32> {
    match field.value {
        ValueView::Short(v) => if v.len() > 0 {
            Some(v[0] as u32)
        } else {
            None
        },
        _ => None,
    }
}

fn field_to_iso(field: &ExifField) -> (r: Option<u32>)
    ensures
        r == sensitivity(field.content()),
{
    match &field.value {
        ExifValue::Short(v) => if v.len() > 0 {
            Some(v[0] as u32)
        } else {
            None
        },
        _ => None,
    }
}

/// The exposure in a field: its first fraction as it stands.
pub open spec fn exposure(field: FieldView) -> Option<Seq<char>> {
    match field.value {
        ValueView::Rational(v) => if v.len() > 0 {
            Some(decimal(v[0].num as nat) + "/"@ + decimal(v[0].denom as nat))
        } else {
            None
        },
        _ => None,
    }
}

fn field_to_exposure(field: &ExifField) -> (r: Option<String>)
    ensures
        optional_text(r) == exposure(field.content()),
{
    match &field.value {
        ExifValue::Rational(v) => if v.len() > 0 {
            Some(
                joined3(
                    decimal_text(v[0].num as u64).as_str(),
                    "/",
                    decimal_text(v[0].denom as u64).as_str(),
                ),
            )
        } else {
            None
        },
        _ => None,
    }
}

/// The number of characters before the first space.
pub open spec fn before_space(s: Seq<char>) -> int
    decreases s.len(),
{
    if s.len() == 0 || s[0] == ' ' {
        0
    } else {
        1 + before_space(s.drop_first())
    }
}

/// A date and time as EXIF has it, with hyphens in the date.
pub open spec fn iso_datetime(s: Seq<char>) -> Seq<char> {
    replaced(s.take(before_space(s)), ':', '-') + s.skip(before_space(s))
}

/// A date and time as EXIF has it, with hyphens in the date. A text without a
/// space is taken as a date.
pub fn exif_datetime_to_iso(exif_dt: &str) -> (r: String)
    ensures
        r@ == iso_datetime(exif_dt@),
{
    let v: Vec<char> = chars_of(exif_dt);
    let mut i: usize = 0;
    assert(v@.skip(0) == v@);
    while i < v.len() && v[i] != ' '
        invariant
            i <= v@.len(),
            v@ == exif_dt@,
            before_space(v@) == i + before_space(v@.skip(i as int)),
        ensures
            i <= v@.len(),
            before_space(v@) == i + before_space(v@.skip(i as int)),
            i < v@.len() ==> v@[i as int] == ' ',
        decreases v@.len() - i,
    {
        assert(v@.skip(i as int).drop_first() == v@.skip(i + 1));
        i = i + 1;
    }
    let date: String = text_between(v.as_slice(), 0, i);
    let rest: String = text_between(v.as_slice(), i, v.len());
    let fixed: String = replace_char(chars_of(date.as_str()).as_slice(), ':', '-');
    assert(v@.subrange(0, i as int) == v@.take(i as int));
    assert(v@.subrange(i as int, v@.len() as int) == v@.skip(i as int));
    joined(fixed.as_str(), rest.as_str())
}

/// The coordinate in a field with at least three fractions. It is negative where
/// the field about its direction names the south or the west.
pub open spec fn coordinate(value: Option<FieldView>, direction: Option<FieldView>) -> Option<GpsCoordinate> {
    match value {
        Some(field) => match field.value {
            ValueView::Rational(v) => if v.len() >= 3 {
                Some(
                    GpsCoordinate {
                        degrees: v[0],
                        minutes: v[1],
                        seconds: v[2],
                        negative: direction matches Some(d) && (plain(d.text).contains('S') || plain(
                            d.text,
                        ).contains('W')),
                    },
                )
            } else {
                None
            },
            _ => None,
        },
        None => None,
    }
}

fn has_char(s: &str, c: char) -> (r: bool)
    ensures
        r == s@.contains(c),
{
    let v: Vec<char> = chars_of(s);
    for i in 0..v.len()
        invariant
            v@ == s@,
            forall|j: int| 0 <= j < i ==> v@[j] != c,
    {
        if v[i] == c {
            return true;
        }
    }
    false
}

/// A coordinate, from the field that holds it and the one about its direction.
pub fn extract_gps_coordinate(fields: &Vec<ExifField>, value_tag: ExifTag, ref_tag: ExifTag) -> (r: Option<
    GpsCoordinate,
>)
    ensures
        r == coordinate(lookup(by_tag(fields@), value_tag), lookup(by_tag(fields@), ref_tag)),
{
    let field: &ExifField = match get_field(fields, value_tag) {
        Some(f) => f,
        None => {
            return None;
        },
    };
    match &field.value {
        ExifValue::Rational(v) => {
            if v.len() < 3 {
                return None;
            }
            let negative: bool = match get_field(fields, ref_tag) {
                Some(d) => {
                    let direction: String = field_to_string(d);
                    has_char(direction.as_str(), 'S') || has_char(direction.as_str(), 'W')
                },
                None => false,
            };
            Some(GpsCoordinate { degrees: v[0], minutes: v[1], seconds: v[2], negative })
        },
        _ => None,
    }
}

/// What a field is turned into, where it is there.
pub open spec fn text_in(field: Option<FieldView>) -> Option<Seq<char>> {
    match field {
        Some(f) => Some(plain(f.text)),
        None => None,
    }
}

/// What the fields say, but for the searchable text.
pub open spec fn metadata_in(fields: Map<ExifTag, FieldView>) -> MetadataView {
    MetadataView {
        camera_make: text_in(lookup(fields, ExifTag::Make)),
        camera_model: text_in(lookup(fields, ExifTag::Model)),
        lens_model: text_in(lookup(fields, ExifTag::LensModel)),
        focal_length_mm: match lookup(fields, ExifTag::FocalLength) {
            Some(f) => fraction(f),
            None => None,
        },
        f_number: match lookup(fields, ExifTag::FNumber) {
            Some(f) => fraction(f),
            None => None,
        },
        iso: match lookup(fields, ExifTag::PhotographicSensitivity) {
            Some(f) => sensitivity(f),
            None => None,
        },
        exposure_time: match lookup(fields, ExifTag::ExposureTime) {
            Some(f) => exposure(f),
            None => None,
        },
        date_taken: match lookup(fields, ExifTag::DateTimeOriginal) {
            Some(f) => Some(iso_datetime(plain(f.text))),
            None => None,
        },
        gps_latitude: coordinate(
            lookup(fields, ExifTag::GpsLatitude),
            lookup(fields, ExifTag::GpsLatitudeRef),
        ),
        gps_longitude: coordinate(
            lookup(fields, ExifTag::GpsLongitude),
            lookup(fields, ExifTag::GpsLongitudeRef),
        ),
        gps_altitude_m: match lookup(fields, ExifTag::GpsAltitude) {
            Some(f) => fraction(f),
            None => None,
        },
        width_px: match lookup(fields, ExifTag::PixelXDimension) {
            Some(f) => whole(f),
            None => None,
        },
        height_px: match lookup(fields, ExifTag::PixelYDimension) {
            Some(f) => whole(f),
            None => None,
        },
        searchable_text: Seq::empty(),
    }
}

fn text_field(fields: &Vec<ExifField>, tag: ExifTag) -> (r: Option<String>)
    ensures
        optional_text(r) == text_in(lookup(by_tag(fields@), tag)),
{
    match get_field(fields, tag) {
        Some(f) => Some(field_to_string(f)),
        None => None,
    }
}

fn rational_field(fields: &Vec<ExifField>, tag: ExifTag) -> (r: Option<Rational>)
    ensures
        r == match lookup(by_tag(fields@), tag) {
            Some(f) => fraction(f),
            None => None,
        },
{
    match get_field(fields, tag) {
        Some(f) => field_to_rational(f),
        None => None,
    }
}

fn whole_field(fields: &Vec<ExifField>, tag: ExifTag) -> (r: Option<u32>)
    ensures
        r == match lookup(by_tag(fields@), tag) {
            Some(f) => whole(f),
            None => None,
        },
{
    match get_field(fields, tag) {
        Some(f) => field_to_u32(f),
        None => None,
    }
}

/// What the fields say, but for the searchable text.
pub fn read_fields(fields: &Vec<ExifField>) -> (r: MediaMetadata)
    ensures
        r@ == metadata_in(by_tag(fields@)),
{
    MediaMetadata {
        camera_make: text_field(fields, ExifTag::Make),
        camera_model: text_field(fields, ExifTag::Model),
        lens_model: text_field(fields, ExifTag::LensModel),
        focal_length_mm: rational_field(fields, ExifTag::FocalLength),
        f_number: rational_field(fields, ExifTag::FNumber),
        iso: match get_field(fields, ExifTag::PhotographicSensitivity) {
            Some(f) => field_to_iso(f),
            None => None,
        },
        exposure_time: match get_field(fields, ExifTag::ExposureTime) {
            Some(f) => field_to_exposure(f),
            None => None,
        },
        date_taken: match get_field(fields, ExifTag::DateTimeOriginal) {
            Some(f) => Some(exif_datetime_to_iso(field_to_string(f).as_str())),
            None => None,
        },
        gps_latitude: extract_gps_coordinate(fields, ExifTag::GpsLatitude, ExifTag::GpsLatitudeRef),
        gps_longitude: extract_gps_coordinate(
            fields,
            ExifTag::GpsLongitude,
            ExifTag::GpsLongitudeRef,
        ),
        gps_altitude_m: rational_field(fields, ExifTag::GpsAltitude),
        width_px: whole_field(fields, ExifTag::PixelXDimension),
        height_px: whole_field(fields, ExifTag::PixelYDimension),
        searchable_text: String::new(),
    }
}

/// What the fields say, with the searchable text, or nothing where there is
/// nothing to search for.
pub open spec fn exif_metadata(fields: Map<ExifTag, FieldView>, numbers: NumberTexts) -> Option<MetadataView> {
    let meta = made_searchable(metadata_in(fields), numbers);
    if meta.searchable_text.len() == 0 {
        None
    } else {
        Some(meta)
    }
}

/// What optional metadata says.
pub open spec fn optional_metadata(m: Option<MediaMetadata>) -> Option<MetadataView> {
    match m {
        Some(meta) => Some(meta@),
        None => None,
    }
}

/// What the fields say, with the searchable text, or nothing where there is
/// nothing to search for. The numbers that [`read_fields`] finds are given
/// written out.
pub fn extract_exif(fields: &Vec<ExifField>, numbers: &NumberTexts) -> (r: Option<MediaMetadata>)
    requires
        written_out(metadata_in(by_tag(fields@)), *numbers),
    ensures
        optional_metadata(r) == exif_metadata(by_tag(fields@), *numbers),
{
    let mut meta: MediaMetadata = read_fields(fields);
    meta.build_searchable_text(numbers);
    if meta.searchable_text.as_str().is_empty() {
        None
    } else {
        Some(meta)
    }
}

// ---------------------------------------------------------------------------
// Image files
// ---------------------------------------------------------------------------

/// The groups that tags are numbered in.
#[derive(Clone, Copy, Debug, PartialEq, Eq, Structural)]
pub enum TagGroup {
    Tiff,
    Exif,
    Gps,
}

/// The group of a tag and its number there.
pub open spec fn tag_id(tag: ExifTag) -> (TagGroup, u16) {
    match tag {
        ExifTag::Make => (TagGroup::Tiff, 0x10f),
        ExifTag::Model => (TagGroup::Tiff, 0x110),
        ExifTag::LensModel => (TagGroup::Exif, 0xa434),
        ExifTag::FocalLength => (TagGroup::Exif, 0x920a),
        ExifTag::FNumber => (TagGroup::Exif, 0x829d),
        ExifTag::PhotographicSensitivity => (TagGroup::Exif, 0x8827),
        ExifTag::ExposureTime => (TagGroup::Exif, 0x829a),
        ExifTag::DateTimeOriginal => (TagGroup::Exif, 0x9003),
        ExifTag::GpsLatitude => (TagGroup::Gps, 0x2),
        ExifTag::GpsLatitudeRef => (TagGroup::Gps, 0x1),
        ExifTag::GpsLongitude => (TagGroup::Gps, 0x4),
        ExifTag::GpsLongitudeRef => (TagGroup::Gps, 0x3),
        ExifTag::GpsAltitude => (TagGroup::Gps, 0x6),
        ExifTag::PixelXDimension => (TagGroup::Exif, 0xa002),
        ExifTag::PixelYDimension => (TagGroup::Exif, 0xa003),
    }
}

/// The group of a tag and its number there.
pub fn number_of_tag(tag: ExifTag) -> (r: (TagGroup, u16))
    ensures
        r == tag_id(tag),
{
    match tag {
        ExifTag::Make => (TagGroup::Tiff, 0x10f),
        ExifTag::Model => (TagGroup::Tiff, 0x110),
        ExifTag::LensModel => (TagGroup::Exif, 0xa434),
        ExifTag::FocalLength => (TagGroup::Exif, 0x920a),
        ExifTag::FNumber => (TagGroup::Exif, 0x829d),
        ExifTag::PhotographicSensitivity => (TagGroup::Exif, 0x8827),
        ExifTag::ExposureTime => (TagGroup::Exif, 0x829a),
        ExifTag::DateTimeOriginal => (TagGroup::Exif, 0x9003),
        ExifTag::GpsLatitude => (TagGroup::Gps, 0x2),
        ExifTag::GpsLatitudeRef => (TagGroup::Gps, 0x1),
        ExifTag::GpsLongitude => (TagGroup::Gps, 0x4),
        ExifTag::GpsLongitudeRef => (TagGroup::Gps, 0x3),
        ExifTag::GpsAltitude => (TagGroup::Gps, 0x6),
        ExifTag::PixelXDimension => (TagGroup::Exif, 0xa002),
        ExifTag::PixelYDimension => (TagGroup::Exif, 0xa003),
    }
}

/// kamadak-exif's EXIF data.
#[verifier::external_type_specification]
#[verifier::external_body]
pub struct ExExif(exif::Exif);

/// The fields of the primary image in some EXIF data, by the number of their tag.
pub uninterp spec fn fields_held(data: exif::Exif) -> Map<(TagGroup, u16), FieldView>;

/// The fields of the primary image in an image file, by the number of their tag.
/// Nothing where the bytes are no such file or hold no EXIF data.
pub uninterp spec fn fields_in_image(bytes: Seq<u8>) -> Option<Map<(TagGroup, u16), FieldView>>;

/// `Reader::read_from_container` of kamadak-exif, over the given bytes: the EXIF
/// data of an image, or nothing where none can be read. What it holds depends on
/// the bytes alone.
#[verifier::external_body]
fn open_image(bytes: &[u8]) -> (r: Option<exif::Exif>)
    ensures
        match r {
            Some(data) => fields_in_image(bytes@) == Some(fields_held(data)),
            None => fields_in_image(bytes@) is None,
        },
{
    exif::Reader::new().read_from_container(&mut std::io::Cursor::new(bytes)).ok()
}

/// `Exif::get_field` of kamadak-exif for the primary image, with
/// `Field::display_value`: the text and the value of the field with the given
/// number, if there is one. A value that is neither short, long nor a fraction is
/// given as [`ExifValue::Other`].
#[verifier::external_body]
fn field_in(data: &exif::Exif, group: TagGroup, number: u16) -> (r: Option<(String, ExifValue)>)
    ensures
        match r {
            Some((text, value)) => fields_held(*data).contains_pair(
                (group, number),
                FieldView { text: text@, value: value@ },
            ),
            None => !fields_held(*data).contains_key((group, number)),
        },
{
    let context = match group {
        TagGroup::Tiff => exif::Context::Tiff,
        TagGroup::Exif => exif::Context::Exif,
        TagGroup::Gps => exif::Context::Gps,
    };
    let field = data.get_field(exif::Tag(context, number), exif::In::PRIMARY)?;
    let value = match &field.value {
        exif::Value::Short(v) => ExifValue::Short(v.clone()),
        exif::Value::Long(v) => ExifValue::Long(v.clone()),
        exif::Value::Rational(v) => ExifValue::Rational(
            v.iter().map(|r| Rational { num: r.num, denom: r.denom }).collect(),
        ),
        _ => ExifValue::Other,
    };
    Some((field.display_value().to_string(), value))
}

/// The fields of an image file that the metadata is made of.
pub open spec fn image_fields(bytes: Seq<u8>) -> Option<Map<ExifTag, FieldView>> {
    match fields_in_image(bytes) {
        Some(m) => Some(
            Map::new(|t: ExifTag| m.contains_key(tag_id(t)), |t: ExifTag| m[tag_id(t)]),
        ),
        None => None,
    }
}

/// Every tag once.
pub open spec fn all_tags() -> Seq<ExifTag> {
    seq![
        ExifTag::Make,
        ExifTag::Model,
        ExifTag::LensModel,
        ExifTag::FocalLength,
        ExifTag::FNumber,
        ExifTag::PhotographicSensitivity,
        ExifTag::ExposureTime,
        ExifTag::DateTimeOriginal,
        ExifTag::GpsLatitude,
        ExifTag::GpsLatitudeRef,
        ExifTag::GpsLongitude,
        ExifTag::GpsLongitudeRef,
        ExifTag::GpsAltitude,
        ExifTag::PixelXDimension,
        ExifTag::PixelYDimension,
    ]
}

fn list_tags() -> (r: Vec<ExifTag>)
    ensures
        r@ == all_tags(),
{
    vec![
        ExifTag::Make,
        ExifTag::Model,
        ExifTag::LensModel,
        ExifTag::FocalLength,
        ExifTag::FNumber,
        ExifTag::PhotographicSensitivity,
        ExifTag::ExposureTime,
        ExifTag::DateTimeOriginal,
        ExifTag::GpsLatitude,
        ExifTag::GpsLatitudeRef,
        ExifTag::GpsLongitude,
        ExifTag::GpsLongitudeRef,
        ExifTag::GpsAltitude,
        ExifTag::PixelXDimension,
        ExifTag::PixelYDimension,
    ]
}

/// Adding a field about a tag that had none gives that tag the field, and leaves
/// the other tags alone.
proof fn added_field_is_found(fields: Seq<ExifField>, field: ExifField, tag: ExifTag)
    ensures
        field_of(fields.push(field), tag) == if field_of(fields, tag) is Some {
            field_of(fields, tag)
        } else if field.tag == tag {
            Some(field.content())
        } else {
            None
        },
    decreases fields.len(),
{
    let more = fields.push(field);
    if fields.len() == 0 {
        assert(more.drop_first() == fields);
    } else if fields[0].tag != tag {
        assert(more.drop_first() == fields.drop_first().push(field));
        added_field_is_found(fields.drop_first(), field, tag);
    }
}

proof fn tag_is_listed(tag: ExifTag)
    ensures
        all_tags().contains(tag),
{
    let all = all_tags();
    match tag {
        ExifTag::Make => assert(all[0] == tag),
        ExifTag::Model => assert(all[1] == tag),
        ExifTag::LensModel => assert(all[2] == tag),
        ExifTag::FocalLength => assert(all[3] == tag),
        ExifTag::FNumber => assert(all[4] == tag),
        ExifTag::PhotographicSensitivity => assert(all[5] == tag),
        ExifTag::ExposureTime => assert(all[6] == tag),
        ExifTag::DateTimeOriginal => assert(all[7] == tag),
        ExifTag::GpsLatitude => assert(all[8] == tag),
        ExifTag::GpsLatitudeRef => assert(all[9] == tag),
        ExifTag::GpsLongitude => assert(all[10] == tag),
        ExifTag::GpsLongitudeRef => assert(all[11] == tag),
        ExifTag::GpsAltitude => assert(all[12] == tag),
        ExifTag::PixelXDimension => assert(all[13] == tag),
        ExifTag::PixelYDimension => assert(all[14] == tag),
    }
}

/// The fields of an image file that the metadata is made of, or nothing where
/// the bytes are no image file or hold no EXIF data.
pub fn read_image(bytes: &[u8]) -> (r: Option<Vec<ExifField>>)
    ensures
        match r {
            Some(fields) => image_fields(bytes@) == Some(by_tag(fields@)),
            None => image_fields(bytes@) is None,
        },
{
    let data: exif::Exif = match open_image(bytes) {
        Some(d) => d,
        None => {
            return None;
        },
    };
    let ghost held = fields_held(data);
    let tags: Vec<ExifTag> = list_tags();
    let mut fields: Vec<ExifField> = Vec::new();
    for i in 0..tags.len()
        invariant
            held == fields_held(data),
            tags@ == all_tags(),
            forall|t: ExifTag| #[trigger]
                field_of(fields@, t) == if all_tags().take(i as int).contains(t) && held.contains_key(
                    tag_id(t),
                ) {
                    Some(held[tag_id(t)])
                } else {
                    None
                },
    {
        let tag: ExifTag = tags[i];
        let (group, number): (TagGroup, u16) = number_of_tag(tag);
        let ghost before = fields@;
        let ghost seen = all_tags().take(i as int);
        match field_in(&data, group, number) {
            Some((text, value)) => {
                fields.push(ExifField { tag, text, value });
            },
            None => {},
        }
        proof {
            let more = all_tags().take(i + 1);
            assert(more == seen.push(tag));
            assert forall|t: ExifTag| #[trigger]
                field_of(fields@, t) == if more.contains(t) && held.contains_key(tag_id(t)) {
                    Some(held[tag_id(t)])
                } else {
                    None
                } by {
                assert(more.contains(t) <==> seen.contains(t) || t == tag) by {
                    if seen.contains(t) {
                        let k = choose|k: int| 0 <= k < seen.len() && seen[k] == t;
                        assert(more[k] == t);
                    }
                    if t == tag {
                        assert(more[i as int] == t);
                    }
                }
                if fields@ != before {
                    added_field_is_found(before, fields@.last(), t);
                }
            }
        }
    }
    proof {
        assert(all_tags().take(tags@.len() as int) == all_tags());
        let wanted = Map::new(|t: ExifTag| held.contains_key(tag_id(t)), |t: ExifTag| held[tag_id(t)]);
        assert forall|t: ExifTag| #[trigger] by_tag(fields@).contains_key(t) == wanted.contains_key(t) by {
            tag_is_listed(t);
            assert(field_of(fields@, t) is Some == held.contains_key(tag_id(t)));
        }
        assert forall|t: ExifTag| wanted.contains_key(t) implies #[trigger] by_tag(fields@)[t]
            == wanted[t] by {
            tag_is_listed(t);
            assert(field_of(fields@, t) == Some(held[tag_id(t)]));
        }
        assert(by_tag(fields@) =~= wanted);
    }
    Some(fields)
}

/// The extensions of images that can hold EXIF data.
pub open spec fn is_exif_extension(s: Seq<char>) -> bool {
    ||| s == "jpg"@
    ||| s == "jpeg"@
    ||| s == "tiff"@
    ||| s == "tif"@
    ||| s == "heif"@
    ||| s == "heic"@
    ||| s == "png"@
    ||| s == "webp"@
}

/// Whether the file at `path` can hold EXIF data, going by its extension.
pub fn may_hold_exif(path: &str) -> (r: bool)
    ensures
        r == is_exif_extension(lower_extension(path@)),
{
    let ext: String = extension_lower(path);
    let s: &str = ext.as_str();
    same_text(s, "jpg") || same_text(s, "jpeg") || same_text(s, "tiff") || same_text(s, "tif")
        || same_text(s, "heif") || same_text(s, "heic") || same_text(s, "png") || same_text(s, "webp")
}

/// The metadata of the file at `path`, whose EXIF data has the given fields, if
/// it has any.
pub fn extract_metadata(path: &str, fields: &Option<Vec<ExifField>>, numbers: &NumberTexts) -> (r: Option<
    MediaMetadata,
>)
    requires
        fields matches Some(f) ==> written_out(metadata_in(by_tag(f@)), *numbers),
    ensures
        optional_metadata(r) == match *fields {
            Some(f) => if is_exif_extension(lower_extension(path@)) {
                exif_metadata(by_tag(f@), *numbers)
            } else {
                None
            },
            None => None,
        },
{
    match fields {
        Some(f) => if may_hold_exif(path) {
            extract_exif(f, numbers)
        } else {
            None
        },
        None => None,
    }
}

/// Only the colons of the date are changed: the text keeps its length and what
/// stands behind the first space.
pub proof fn iso_datetime_keeps_the_time(s: Seq<char>)
    ensures
        iso_datetime(s).len() == s.len(),
        0 <= before_space(s) <= s.len(),
        iso_datetime(s).skip(before_space(s)) == s.skip(before_space(s)),
        forall|i: int| 0 <= i < before_space(s) ==> #[trigger] iso_datetime(s)[i] != ':',
{
    space_is_inside(s);
    let k = before_space(s);
    assert(iso_datetime(s).skip(k) == s.skip(k));
}

proof fn space_is_inside(s: Seq<char>)
    ensures
        0 <= before_space(s) <= s.len(),
    decreases s.len(),
{
    if s.len() > 0 && s[0] != ' ' {
        space_is_inside(s.drop_first());
    }
}

} // verus!
