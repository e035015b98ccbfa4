//! Photos: what is read of their metadata, and what of it is searched.

use vstd::prelude::*;

use crate::search::exif::{
    before_space, by_tag, exif_metadata, field_of, fields_in_image, image_fields, iso_datetime, lookup,
    made_searchable, metadata_in, number, one_or_none, plain, search_parts, tag_id, text_if, wrapped,
    written_out, ExifField, ExifTag, FieldView, GpsCoordinate, MetadataView, NumberTexts, Rational,
    ValueView,
};
use crate::text::{decimal, has_text, occurs_at};

verus! {

/// Of several fields about the same, the first counts; a field that is not there
/// is not found.
pub proof fn first_field_counts(fields: Seq<ExifField>, tag: ExifTag, i: int)
    requires
        0 <= i <= fields.len(),
        forall|j: int| 0 <= j < i ==> (#[trigger] fields[j]).tag != tag,
        i < fields.len() ==> fields[i].tag == tag,
    ensures
        i < fields.len() ==> lookup(by_tag(fields), tag) == Some(
            FieldView { text: fields[i].text@, value: fields[i].value@ },
        ),
        i == fields.len() ==> lookup(by_tag(fields), tag) is None,
{
    first_field_is_found(fields, tag, i);
}

proof fn first_field_is_found(fields: Seq<ExifField>, tag: ExifTag, i: int)
    requires
        0 <= i <= fields.len(),
        forall|j: int| 0 <= j < i ==> (#[trigger] fields[j]).tag != tag,
        i < fields.len() ==> fields[i].tag == tag,
    ensures
        i < fields.len() ==> field_of(fields, tag) == Some(fields[i].content()),
        i == fields.len() ==> field_of(fields, tag) is None,
    decreases fields.len(),
{
    if fields.len() > 0 && i > 0 {
        let rest = fields.drop_first();
        assert(fields[0].tag != tag);
        assert forall|j: int| 0 <= j < i - 1 implies (#[trigger] rest[j]).tag != tag by {
            assert(rest[j] == fields[j + 1]);
        }
        if i < fields.len() {
            assert(rest[i - 1] == fields[i]);
        }
        first_field_is_found(rest, tag, i - 1);
    }
}

/// Whether `c` is the coordinate of the three fractions of a field: degrees,
/// minutes and seconds.
pub open spec fn is_coordinate_of(c: Option<GpsCoordinate>, field: Option<FieldView>) -> bool {
    match field {
        Some(f) => match f.value {
            ValueView::Rational(v) => if v.len() >= 3 {
                c matches Some(x) && x.degrees == v[0] && x.minutes == v[1] && x.seconds == v[2]
            } else {
                c is None
            },
            _ => c is None,
        },
        None => c is None,
    }
}

/// The latitude is read of its own field, and is negative if and only if the field
/// about its own direction says south or west; likewise the longitude.
pub proof fn coordinates_go_by_their_own_fields(fields: Map<ExifTag, FieldView>)
    ensures
        ({
            let (lat, lon) = (metadata_in(fields).gps_latitude, metadata_in(fields).gps_longitude);
            &&& is_coordinate_of(lat, lookup(fields, ExifTag::GpsLatitude))
            &&& is_coordinate_of(lon, lookup(fields, ExifTag::GpsLongitude))
            &&& lat matches Some(x) ==> (x.negative <==> (lookup(fields, ExifTag::GpsLatitudeRef) matches Some(
                d,
            ) && (plain(d.text).contains('S') || plain(d.text).contains('W'))))
            &&& lon matches Some(x) ==> (x.negative <==> (lookup(fields, ExifTag::GpsLongitudeRef) matches Some(
                d,
            ) && (plain(d.text).contains('S') || plain(d.text).contains('W'))))
        }),
{
}

/// The longitude does not depend on the fields of the latitude, nor on any others
/// but its own; likewise the latitude.
pub proof fn coordinates_do_not_mix(fields: Map<ExifTag, FieldView>, others: Map<ExifTag, FieldView>)
    ensures
        lookup(fields, ExifTag::GpsLongitude) == lookup(others, ExifTag::GpsLongitude) && lookup(
            fields,
            ExifTag::GpsLongitudeRef,
        ) == lookup(others, ExifTag::GpsLongitudeRef) ==> metadata_in(fields).gps_longitude
            == metadata_in(others).gps_longitude,
        lookup(fields, ExifTag::GpsLatitude) == lookup(others, ExifTag::GpsLatitude) && lookup(
            fields,
            ExifTag::GpsLatitudeRef,
        ) == lookup(others, ExifTag::GpsLatitudeRef) ==> metadata_in(fields).gps_latitude == metadata_in(
            others,
        ).gps_latitude,
{
}

/// Whether `text` is the text of a field without quotes and white space around it.
pub open spec fn is_text_of(text: Option<Seq<char>>, field: Option<FieldView>) -> bool {
    match field {
        Some(f) => text == Some(plain(f.text)),
        None => text is None,
    }
}

/// Whether `q` is the first fraction of a field that can be divided out.
pub open spec fn is_fraction_of(q: Option<Rational>, field: Option<FieldView>) -> bool {
    match field {
        Some(f) => match f.value {
            ValueView::Rational(v) => if v.len() > 0 && v[0].denom != 0 {
                q == Some(v[0])
            } else {
                q is None
            },
            _ => q is None,
        },
        None => q is None,
    }
}

/// Whether `n` is the first whole number of a field.
pub open spec fn is_number_of(n: Option<u32>, field: Option<FieldView>) -> bool {
    match field {
        Some(f) => match f.value {
            ValueView::Short(v) => if v.len() > 0 {
                n == Some(v[0] as u32)
            } else {
                n is None
            },
            ValueView::Long(v) => if v.len() > 0 {
                n == Some(v[0])
            } else {
                n is None
            },
            _ => n is None,
        },
        None => n is None,
    }
}

/// Every entry of the metadata is read of the field about it.
pub proof fn metadata_is_read_field_by_field(fields: Map<ExifTag, FieldView>)
    ensures
        ({
            let m = metadata_in(fields);
            &&& is_text_of(m.camera_make, lookup(fields, ExifTag::Make))
            &&& is_text_of(m.camera_model, lookup(fields, ExifTag::Model))
            &&& is_text_of(m.lens_model, lookup(fields, ExifTag::LensModel))
            &&& is_fraction_of(m.focal_length_mm, lookup(fields, ExifTag::FocalLength))
            &&& is_fraction_of(m.f_number, lookup(fields, ExifTag::FNumber))
            &&& is_fraction_of(m.gps_altitude_m, lookup(fields, ExifTag::GpsAltitude))
            &&& is_number_of(m.width_px, lookup(fields, ExifTag::PixelXDimension))
            &&& is_number_of(m.height_px, lookup(fields, ExifTag::PixelYDimension))
            &&& match lookup(fields, ExifTag::PhotographicSensitivity) {
                Some(f) => match f.value {
                    ValueView::Short(v) => is_number_of(m.iso, Some(f)),
                    _ => m.iso is None,
                },
                None => m.iso is None,
            }
            &&& match lookup(fields, ExifTag::DateTimeOriginal) {
                Some(f) => m.date_taken == Some(iso_datetime(plain(f.text))),
                None => m.date_taken is None,
            }
            &&& match lookup(fields, ExifTag::ExposureTime) {
                Some(f) => match f.value {
                    ValueView::Rational(v) => if v.len() > 0 {
                        m.exposure_time == Some(
                            decimal(v[0].num as nat) + "/"@ + decimal(v[0].denom as nat),
                        )
                    } else {
                        m.exposure_time is None
                    },
                    _ => m.exposure_time is None,
                },
                None => m.exposure_time is None,
            }
        }),
{
}

/// In a date with a time behind it the colons in front of the first space are
/// replaced, and nothing else is changed.
pub proof fn colons_of_the_date_are_replaced(date: Seq<char>, time: Seq<char>, i: int)
    requires
        !date.contains(' '),
        time.len() == 0 || time[0] == ' ',
        0 <= i < date.len() + time.len(),
    ensures
        iso_datetime(date + time).len() == date.len() + time.len(),
        iso_datetime(date + time)[i] == if i < date.len() {
            if date[i] == ':' {
                '-'
            } else {
                date[i]
            }
        } else {
            time[i - date.len()]
        },
{
    space_is_behind_the_date(date, time);
    let s = date + time;
    assert(s.take(date.len() as int) == date);
    assert(s.skip(date.len() as int) == time);
}

proof fn space_is_behind_the_date(date: Seq<char>, time: Seq<char>)
    requires
        !date.contains(' '),
        time.len() == 0 || time[0] == ' ',
    ensures
        before_space(date + time) == date.len(),
    decreases date.len(),
{
    if date.len() == 0 {
        assert(date + time == time);
    } else {
        let rest = date.drop_first();
        assert(date.contains(date[0]));
        assert(!rest.contains(' ')) by {
            if rest.contains(' ') {
                let i = choose|i: int| 0 <= i < rest.len() && rest[i] == ' ';
                assert(date[i + 1] == ' ');
            }
        }
        space_is_behind_the_date(rest, time);
        assert((date + time).drop_first() == rest + time);
    }
}

/// Every entry of the metadata is in the text that is searched: texts as they are,
/// numbers with what they mean.
#[verifier::rlimit(40)]
pub proof fn everything_known_is_searched(meta: MetadataView, numbers: NumberTexts)
    requires
        written_out(meta, numbers),
    ensures
        ({
            let t = made_searchable(meta, numbers).searchable_text;
            &&& meta.camera_make matches Some(x) ==> has_text(t, x)
            &&& meta.camera_model matches Some(x) ==> has_text(t, x)
            &&& meta.lens_model matches Some(x) ==> has_text(t, x)
            &&& meta.date_taken matches Some(x) ==> has_text(t, x)
            &&& meta.exposure_time matches Some(x) ==> has_text(t, x)
            &&& meta.gps_latitude is Some ==> has_text(t, "lat:"@ + numbers.gps_latitude->0@)
            &&& meta.gps_longitude is Some ==> has_text(t, "lon:"@ + numbers.gps_longitude->0@)
            &&& meta.gps_altitude_m is Some ==> has_text(t, "alt:"@ + numbers.gps_altitude_m->0@ + "m"@)
            &&& meta.focal_length_mm is Some ==> has_text(t, numbers.focal_length_mm->0@ + "mm"@)
            &&& meta.f_number is Some ==> has_text(t, "f/"@ + numbers.f_number->0@)
            &&& meta.iso matches Some(n) ==> has_text(t, "ISO"@ + decimal(n as nat))
            &&& meta.width_px matches Some(n) ==> has_text(t, decimal(n as nat) + "px"@)
            &&& meta.height_px matches Some(n) ==> has_text(t, decimal(n as nat) + "px"@)
        }),
        made_searchable(meta, numbers) == (MetadataView {
            searchable_text: made_searchable(meta, numbers).searchable_text,
            ..meta
        }),
{
    let make = meta.camera_make;
    let model = meta.camera_model;
    let lens = meta.lens_model;
    let date = meta.date_taken;
    let lat = wrapped("lat:"@, text_if(meta.gps_latitude, numbers.gps_latitude), Seq::empty());
    let lon = wrapped("lon:"@, text_if(meta.gps_longitude, numbers.gps_longitude), Seq::empty());
    let alt = wrapped("alt:"@, text_if(meta.gps_altitude_m, numbers.gps_altitude_m), "m"@);
    let focal = wrapped(Seq::empty(), text_if(meta.focal_length_mm, numbers.focal_length_mm), "mm"@);
    let stop = wrapped("f/"@, text_if(meta.f_number, numbers.f_number), Seq::empty());
    let iso = wrapped("ISO"@, number(meta.iso), Seq::empty());
    let exposure = meta.exposure_time;
    let width = wrapped(Seq::empty(), number(meta.width_px), "px"@);
    let height = wrapped(Seq::empty(), number(meta.height_px), "px"@);
    let s1 = one_or_none(make);
    let s2 = s1 + one_or_none(model);
    sum_lists_both(s1, one_or_none(model));
    let s3 = s2 + one_or_none(lens);
    sum_lists_both(s2, one_or_none(lens));
    let s4 = s3 + one_or_none(date);
    sum_lists_both(s3, one_or_none(date));
    let s5 = s4 + one_or_none(lat);
    sum_lists_both(s4, one_or_none(lat));
    let s6 = s5 + one_or_none(lon);
    sum_lists_both(s5, one_or_none(lon));
    let s7 = s6 + one_or_none(alt);
    sum_lists_both(s6, one_or_none(alt));
    let s8 = s7 + one_or_none(focal);
    sum_lists_both(s7, one_or_none(focal));
    let s9 = s8 + one_or_none(stop);
    sum_lists_both(s8, one_or_none(stop));
    let s10 = s9 + one_or_none(iso);
    sum_lists_both(s9, one_or_none(iso));
    let s11 = s10 + one_or_none(exposure);
    sum_lists_both(s10, one_or_none(exposure));
    let s12 = s11 + one_or_none(width);
    sum_lists_both(s11, one_or_none(width));
    let s13 = s12 + one_or_none(height);
    sum_lists_both(s12, one_or_none(height));
    assert(s13 == search_parts(meta, numbers));
    part_is_searched(meta, numbers, make);
    part_is_searched(meta, numbers, model);
    part_is_searched(meta, numbers, lens);
    part_is_searched(meta, numbers, date);
    part_is_searched(meta, numbers, lat);
    part_is_searched(meta, numbers, lon);
    part_is_searched(meta, numbers, alt);
    part_is_searched(meta, numbers, focal);
    part_is_searched(meta, numbers, stop);
    part_is_searched(meta, numbers, iso);
    part_is_searched(meta, numbers, exposure);
    part_is_searched(meta, numbers, width);
    part_is_searched(meta, numbers, height);
    let nothing = Seq::<char>::empty();
    assert(forall|t: Seq<char>| #[trigger] (t + nothing) == t);
    assert(forall|t: Seq<char>| #[trigger] (nothing + t) == t);
}

proof fn sum_lists_both(a: Seq<Seq<char>>, b: Seq<Seq<char>>)
    ensures
        forall|x: Seq<char>| #[trigger] a.contains(x) ==> (a + b).contains(x),
        forall|x: Seq<char>| #[trigger] b.contains(x) ==> (a + b).contains(x),
{
    assert forall|x: Seq<char>| #[trigger] a.contains(x) implies (a + b).contains(x) by {
        let i = choose|i: int| 0 <= i < a.len() && a[i] == x;
        assert((a + b)[i] == x);
    }
    assert forall|x: Seq<char>| #[trigger] b.contains(x) implies (a + b).contains(x) by {
        let i = choose|i: int| 0 <= i < b.len() && b[i] == x;
        assert((a + b)[a.len() + i] == x);
    }
}

proof fn part_is_searched(meta: MetadataView, numbers: NumberTexts, part: Option<Seq<char>>)
    requires
        forall|x: Seq<char>| #[trigger] one_or_none(part).contains(x) ==> search_parts(meta, numbers).contains(x),
    ensures
        part matches Some(x) ==> has_text(made_searchable(meta, numbers).searchable_text, x),
{
    let t = made_searchable(meta, numbers).searchable_text;
    if part is Some {
        let x = part->0;
        if x.len() > 0 {
            assert(one_or_none(part)[0] == x);
            assert(one_or_none(part).contains(x));
            let parts = search_parts(meta, numbers);
            let i = choose|i: int| 0 <= i < parts.len() && parts[i] == x;
            crate::search::exif::every_part_is_searchable(meta, numbers, i);
        } else {
            assert(t.subrange(0, 0) == x);
            assert(occurs_at(t, x, 0));
        }
    }
}

/// There is metadata if and only if there is a text to search, and then it is what
/// the fields say.
pub proof fn metadata_needs_a_text(fields: Map<ExifTag, FieldView>, numbers: NumberTexts)
    requires
        written_out(metadata_in(fields), numbers),
    ensures
        ({
            let m = metadata_in(fields);
            let r = exif_metadata(fields, numbers);
            &&& r matches Some(x) ==> x == (MetadataView { searchable_text: x.searchable_text, ..m })
                && x.searchable_text.len() > 0
            &&& (m.camera_make matches Some(x) && x.len() > 0) ==> r is Some
            &&& (m.camera_model matches Some(x) && x.len() > 0) ==> r is Some
            &&& (m.date_taken matches Some(x) && x.len() > 0) ==> r is Some
            &&& (m.gps_latitude is Some || m.gps_longitude is Some || m.iso is Some) ==> r is Some
        }),
{
    let m = metadata_in(fields);
    let t = made_searchable(m, numbers).searchable_text;
    everything_known_is_searched(m, numbers);
    if m.gps_latitude is Some || m.gps_longitude is Some || m.iso is Some {
        crate::search::exif::numbers_are_searchable(m, numbers);
    }
    if t.len() == 0 {
        assert forall|x: Seq<char>| #[trigger] has_text(t, x) implies x.len() == 0 by {
            let i = choose|i: int| #[trigger] occurs_at(t, x, i);
        }
    }
}

/// No two entries are read of the same field of an image.
pub proof fn every_tag_has_its_own_number(a: ExifTag, b: ExifTag)
    requires
        tag_id(a) == tag_id(b),
    ensures
        a == b,
{
}

/// The fields of an image are found under the numbers of their tags.
pub proof fn fields_are_found_by_number(bytes: Seq<u8>, tag: ExifTag)
    requires
        fields_in_image(bytes) is Some,
    ensures
        image_fields(bytes) is Some,
        lookup(image_fields(bytes)->0, tag) == if fields_in_image(bytes)->0.contains_key(tag_id(tag)) {
            Some(fields_in_image(bytes)->0[tag_id(tag)])
        } else {
            None
        },
{
}

} // verus!
