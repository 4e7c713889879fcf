//! The source side: the archive URL a date maps to, and the decoding of
//! the JSON document the archive answers with.
//!
//! The document is an object with a `data` array; each element carries the
//! performer under `interpret` and the title under `track`, beside fields
//! that are ignored. serde_json parses the text; the walk over the parsed
//! value and the shape check are verified here.

use crate::date::date_str;
use crate::date::push_pad2;
use crate::date::push_year4;
use crate::date::render_int;
use crate::date::Date;
use crate::digits::dec_digits;
use crate::digits::pad_left;
use crate::playlist::views_of;
use crate::playlist::EntryView;
use crate::playlist::PlaylistEntry;
use vstd::prelude::*;

verus! {

/// The fixed-station daily archive URL for a date, with the year, month
/// and day zero-padded to four, two and two characters.
pub open spec fn archive_url_str(d: Date) -> Seq<char> {
    "https://api.rozhlas.cz/data/v2/playlist/day/"@ + render_int(d.year as int, 4) + "/"@
        + pad_left(dec_digits(d.month as nat), 2) + "/"@ + pad_left(dec_digits(d.day as nat), 2)
        + "/radiowave.json"@
}

/// Builds the daily archive URL for `d`.
pub fn archive_url(d: &Date) -> (r: String)
    ensures
        r@ == archive_url_str(*d),
{
    let mut out = String::from_str("https://api.rozhlas.cz/data/v2/playlist/day/");
    push_year4(&mut out, d.year);
    out.append("/");
    push_pad2(&mut out, d.month as u64);
    out.append("/");
    push_pad2(&mut out, d.day as u64);
    out.append("/radiowave.json");
    proof {
        assert(out@ =~= archive_url_str(*d));
    }
    out
}

/// Why a fetched document yields no playlist.
#[derive(Clone, Copy, Debug, PartialEq, Eq, Structural)]
pub enum FetchError {
    /// The body is not well-formed JSON.
    InvalidJson,
    /// The JSON lacks the `data` array, or an element lacks a string
    /// `interpret` or `track` field.
    UnexpectedShape,
}

#[verifier::external_type_specification]
#[verifier::external_body]
pub struct ExValue(serde_json::Value);

#[verifier::external_type_specification]
#[verifier::external_body]
pub struct ExJsonError(serde_json::Error);

/// The JSON value a text parses to, or `None` where parsing fails.
pub uninterp spec fn json_of(s: Seq<char>) -> Option<serde_json::Value>;

/// The member a string key selects from a JSON value, or `None` where the
/// value is no object or has no such member.
pub uninterp spec fn member_of(v: serde_json::Value, key: Seq<char>) -> Option<serde_json::Value>;

/// The elements of a JSON value, or `None` where it is no array.
pub uninterp spec fn elements_of(v: serde_json::Value) -> Option<Seq<serde_json::Value>>;

/// The characters of a JSON value, or `None` where it is no string.
pub uninterp spec fn text_of(v: serde_json::Value) -> Option<Seq<char>>;

/// Relies on `serde_json::from_str::<Value>`: whether a text is
/// well-formed JSON, and what value it denotes, depend on the text alone.
#[verifier::external_body]
fn parse_json(s: &str) -> (r: Result<serde_json::Value, serde_json::Error>)
    ensures
        match r {
            Ok(v) => json_of(s@) == Some(v),
            Err(_) => json_of(s@) is None,
        },
{
    serde_json::from_str::<serde_json::Value>(s)
}

/// Relies on `serde_json::Value::get` with a string index: a pure lookup
/// of a member by key, `None` on a non-object or an absent key.
#[verifier::external_body]
fn json_member<'a>(v: &'a serde_json::Value, key: &str) -> (r: Option<&'a serde_json::Value>)
    ensures
        match r {
            Some(m) => member_of(*v, key@) == Some(*m),
            None => member_of(*v, key@) is None,
        },
{
    v.get(key)
}

/// Relies on `serde_json::Value::as_array`: the elements of an array
/// value, `None` on any other kind of value.
#[verifier::external_body]
fn json_elements<'a>(v: &'a serde_json::Value) -> (r: Option<&'a Vec<serde_json::Value>>)
    ensures
        match r {
            Some(a) => elements_of(*v) == Some(a@),
            None => elements_of(*v) is None,
        },
{
    v.as_array()
}

/// Relies on `serde_json::Value::as_str`: the characters of a string
/// value, `None` on any other kind of value.
#[verifier::external_body]
fn json_text<'a>(v: &'a serde_json::Value) -> (r: Option<&'a str>)
    ensures
        match r {
            Some(s) => text_of(*v) == Some(s@),
            None => text_of(*v) is None,
        },
{
    v.as_str()
}

/// The entry a playlist element denotes: its `interpret` and `track`
/// members, both strings. Other members are ignored.
pub open spec fn entry_of(v: serde_json::Value) -> Option<EntryView> {
    match member_of(v, "interpret"@) {
        Some(a) => match text_of(a) {
            Some(artist) => match member_of(v, "track"@) {
                Some(t) => match text_of(t) {
                    Some(title) => Some(EntryView { artist, title }),
                    None => None,
                },
                None => None,
            },
            None => None,
        },
        None => None,
    }
}

/// The playlist a document denotes: the entries of its `data` array, in
/// array order, or `None` where the shape is wrong anywhere.
pub open spec fn playlist_of(doc: serde_json::Value) -> Option<Seq<EntryView>> {
    match member_of(doc, "data"@) {
        Some(d) => match elements_of(d) {
            Some(items) => if forall|i: int|
                0 <= i < items.len() ==> entry_of(#[trigger] items[i]) is Some {
                Some(Seq::new(items.len(), |i: int| entry_of(items[i]).unwrap()))
            } else {
                None
            },
            None => None,
        },
        None => None,
    }
}

/// The playlist a body text denotes, through `json_of`.
pub open spec fn parsed_playlist(s: Seq<char>) -> Option<Seq<EntryView>> {
    match json_of(s) {
        Some(doc) => playlist_of(doc),
        None => None,
    }
}

/// Reads one playlist element: a JSON object text with string `interpret`
/// and `track` members, the other members ignored.
pub fn parse_entry(s: &str) -> (r: Option<PlaylistEntry>)
    ensures
        match r {
            Some(e) => json_of(s@) is Some && entry_of(json_of(s@).unwrap()) == Some(e@),
            None => json_of(s@) is None || entry_of(json_of(s@).unwrap()) is None,
        },
{
    let doc = match parse_json(s) {
        Ok(v) => v,
        Err(_) => {
            return None;
        },
    };
    entry_from_value(&doc)
}

/// Reads the `interpret` and `track` members of one parsed element.
fn entry_from_value(v: &serde_json::Value) -> (r: Option<PlaylistEntry>)
    ensures
        match r {
            Some(e) => entry_of(*v) == Some(e@),
            None => entry_of(*v) is None,
        },
{
    let a = match json_member(v, "interpret") {
        Some(x) => x,
        None => {
            return None;
        },
    };
    let artist = match json_text(a) {
        Some(s) => s,
        None => {
            return None;
        },
    };
    let t = match json_member(v, "track") {
        Some(x) => x,
        None => {
            return None;
        },
    };
    let title = match json_text(t) {
        Some(s) => s,
        None => {
            return None;
        },
    };
    Some(PlaylistEntry { artist: artist.to_owned(), title: title.to_owned() })
}

/// Decodes a fetched body into the playlist, in source order: the `data`
/// array, one entry per element. Any other shape is an error; no partial
/// playlist is returned.
pub fn parse_playlist(body: &str) -> (r: Result<Vec<PlaylistEntry>, FetchError>)
    ensures
        match r {
            Ok(es) => parsed_playlist(body@) == Some(views_of(es@)),
            Err(FetchError::InvalidJson) => json_of(body@) is None,
            Err(FetchError::UnexpectedShape) => json_of(body@) is Some && parsed_playlist(body@)
                is None,
        },
{
    let doc = match parse_json(body) {
        Ok(v) => v,
        Err(_) => {
            return Err(FetchError::InvalidJson);
        },
    };
    let data = match json_member(&doc, "data") {
        Some(d) => d,
        None => {
            return Err(FetchError::UnexpectedShape);
        },
    };
    let items = match json_elements(data) {
        Some(a) => a,
        None => {
            return Err(FetchError::UnexpectedShape);
        },
    };
    let mut out: Vec<PlaylistEntry> = Vec::new();
    let mut i: usize = 0;
    while i < items.len()
        invariant
            i <= items.len(),
            elements_of(*data) == Some(items@),
            member_of(doc, "data"@) == Some(*data),
            json_of(body@) == Some(doc),
            out@.len() == i,
            forall|j: int|
                0 <= j < i ==> entry_of(#[trigger] items@[j]) is Some && entry_of(items@[j])
                    == Some(out@[j]@),
        decreases items.len() - i,
    {
        let e = match entry_from_value(&items[i]) {
            Some(e) => e,
            None => {
                return Err(FetchError::UnexpectedShape);
            },
        };
        out.push(e);
        i += 1;
    }
    proof {
        assert(views_of(out@) =~= Seq::new(items@.len(), |j: int| entry_of(items@[j]).unwrap()));
    }
    Ok(out)
}

/// The name the created playlist carries: `"Radio Wave {date}"`.
pub open spec fn playlist_name_str(d: Date) -> Seq<char> {
    "Radio Wave "@ + date_str(d)
}

/// The description the created playlist carries.
pub open spec fn playlist_description_str(d: Date) -> Seq<char> {
    "Playlist for Radio Wave for "@ + date_str(d)
}

/// Builds the name of the playlist created for `d`.
pub fn playlist_name(d: &Date) -> (r: String)
    ensures
        r@ == playlist_name_str(*d),
{
    let mut out = String::from_str("Radio Wave ");
    out.append(d.render().as_str());
    out
}

/// Builds the description of the playlist created for `d`.
pub fn playlist_description(d: &Date) -> (r: String)
    ensures
        r@ == playlist_description_str(*d),
{
    let mut out = String::from_str("Playlist for Radio Wave for ");
    out.append(d.render().as_str());
    out
}

} // verus!
