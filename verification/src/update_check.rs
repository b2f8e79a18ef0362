//! Looking for a newer release: the tag that the release service names,
//! versions compared, and the state kept between two looks.

use vstd::prelude::*;
use vstd::string::StringExecFns;
use crate::text::chars_of;
use crate::text::string_of;
use crate::text::opt_view;
use crate::search::position;
use crate::search::find_char;
use crate::split::rows;
use crate::split::split_on;
use crate::split::split_at_char;
use crate::split::words;
use crate::split::split_words;
use crate::numbers::parse_unsigned;
use crate::numbers::parse_number;
use crate::numbers::decimal;
use crate::numbers::push_decimal;

verus! {

/// The seconds that pass between two looks for a newer release.
pub const CHECK_INTERVAL_SECS: u64 = 86_400;

/// An error of the JSON parser.
#[verifier::external_type_specification]
#[verifier::external_body]
pub struct ExJsonError(serde_json::Error);

/// What a JSON text holds under a key: none where the text is not JSON;
/// else the text of the member that the JSON object has under the key, or
/// none where the text is no object, the object has no such member, or the
/// member is no string.
pub uninterp spec fn json_text_member(json: Seq<char>, key: Seq<char>) -> Option<Option<Seq<char>>>;

/// `serde_json::from_str` parses the text into a `serde_json::Value`, or
/// fails where the text is not JSON. Indexing a `Value` by a key gives the
/// object's member of that name, or null where the `Value` is no object or
/// has no such member, and `Value::as_str` gives the text of a string and
/// none for any other value. All of it depends on the two texts alone.
#[verifier::external_body]
fn read_text_member(json: &str, key: &str) -> (r: Result<Option<String>, serde_json::Error>)
    ensures
        (match r {
            Ok(m) => Some(opt_view(m)),
            Err(_) => None,
        }) == json_text_member(json@, key@),
{
    let v: serde_json::Value = serde_json::from_str(json)?;
    Ok(v[key].as_str().map(str::to_owned))
}

/// Why no tag could be read off the release service's answer.
#[derive(Debug, Clone, Copy, PartialEq, Eq, Structural)]
pub enum TagError {
    /// The answer is not JSON.
    InvalidJson,
    /// The answer names no tag.
    MissingTagName,
}

/// The tag, given what the answer holds under `tag_name`.
pub open spec fn tag_of(found: Option<Option<Seq<char>>>) -> Result<Seq<char>, TagError> {
    match found {
        Some(Some(t)) => Ok(t),
        Some(None) => Err(TagError::MissingTagName),
        None => Err(TagError::InvalidJson),
    }
}

/// The view of a tag or of the reason why there is none.
pub open spec fn tag_view(r: Result<String, TagError>) -> Result<Seq<char>, TagError> {
    match r {
        Ok(t) => Ok(t@),
        Err(e) => Err(e),
    }
}

/// The tag, given what the parser made of the answer: the text found under
/// `tag_name`, the lack of one, or the parser's error.
pub fn tag_from_member(found: Result<Option<String>, serde_json::Error>) -> (r: Result<
    String,
    TagError,
>)
    ensures
        tag_view(r) == tag_of(
            match found {
                Ok(m) => Some(opt_view(m)),
                Err(_) => None,
            },
        ),
{
    match found {
        Ok(Some(t)) => Ok(t),
        Ok(None) => Err(TagError::MissingTagName),
        Err(_) => Err(TagError::InvalidJson),
    }
}

/// The tag of the latest release, read off the release service's answer:
/// the text that the JSON object holds under `tag_name`.
pub fn extract_tag_name(json: &str) -> (r: Result<String, TagError>)
    ensures
        tag_view(r) == tag_of(json_text_member(json@, "tag_name"@)),
{
    tag_from_member(read_text_member(json, "tag_name"))
}

/// The part of a version's third number that counts: what stands before
/// the first `-` or `+`, which begin a suffix.
pub open spec fn core_of(part: Seq<char>) -> Seq<char> {
    let a = position(part, '-');
    let b = position(part, '+');
    part.take(if a <= b { a } else { b })
}

/// The three numbers of a version. The version is cut at its dots; the
/// first three pieces must be numbers of 32 bits, the third without its
/// suffix. What follows a third dot is passed over.
pub open spec fn version_of(s: Seq<char>) -> Option<(u32, u32, u32)> {
    let parts = split_on(s, '.');
    if parts.len() < 3 {
        None
    } else {
        match parse_unsigned(parts[0], 0xffff_ffff) {
            Some(a) => match parse_unsigned(parts[1], 0xffff_ffff) {
                Some(b) => match parse_unsigned(core_of(parts[2]), 0xffff_ffff) {
                    Some(c) => Some((a as u32, b as u32, c as u32)),
                    None => None,
                },
                None => None,
            },
            None => None,
        }
    }
}

/// Whether the version `l` is higher than `c`: the first numbers decide,
/// then the second, then the third.
pub open spec fn version_gt(l: (u32, u32, u32), c: (u32, u32, u32)) -> bool {
    l.0 > c.0 || (l.0 == c.0 && (l.1 > c.1 || (l.1 == c.1 && l.2 > c.2)))
}

/// Whether `latest` is a higher version than `current`. Where either is no
/// version, it is not.
pub open spec fn newer(latest: Seq<char>, current: Seq<char>) -> bool {
    match version_of(latest) {
        Some(l) => match version_of(current) {
            Some(c) => version_gt(l, c),
            None => false,
        },
        None => false,
    }
}

/// The three numbers of a version.
pub fn parse_version(s: &str) -> (r: Option<(u32, u32, u32)>)
    ensures
        r == version_of(s@),
{
    let v = chars_of(s);
    let parts = split_at_char(v.as_slice(), '.');
    if parts.len() < 3 {
        return None;
    }
    assert(rows(parts@)[0] == parts@[0]@ && rows(parts@)[1] == parts@[1]@ && rows(parts@)[2]
        == parts@[2]@);
    let a = match parse_number(parts[0].as_slice(), 0xffff_ffff) {
        Some(a) => a as u32,
        None => {
            return None;
        },
    };
    let b = match parse_number(parts[1].as_slice(), 0xffff_ffff) {
        Some(b) => b as u32,
        None => {
            return None;
        },
    };
    let third = parts[2].as_slice();
    let n: usize = third.len();
    assert(third@.subrange(0, n as int) =~= third@);
    let dash = find_char(third, 0, n, '-');
    let plus = find_char(third, 0, n, '+');
    let end: usize = if dash <= plus {
        dash
    } else {
        plus
    };
    let core = crate::split::copy_range(third, 0, end);
    assert(core@ =~= core_of(third@));
    match parse_number(core.as_slice(), 0xffff_ffff) {
        Some(c) => Some((a, b, c as u32)),
        None => None,
    }
}

/// Whether `latest` is a higher version than `current`.
pub fn is_newer(latest: &str, current: &str) -> (r: bool)
    ensures
        r == newer(latest@, current@),
{
    match parse_version(latest) {
        Some(l) => match parse_version(current) {
            Some(c) => l.0 > c.0 || (l.0 == c.0 && (l.1 > c.1 || (l.1 == c.1 && l.2 > c.2))),
            None => false,
        },
        None => false,
    }
}

/// `s` without the characters `c` at its front.
pub open spec fn without_leading(s: Seq<char>, c: char) -> Seq<char>
    decreases s.len(),
{
    if s.len() > 0 && s[0] == c {
        without_leading(s.drop_first(), c)
    } else {
        s
    }
}

/// Whether the release with the tag `tag` is newer than the version
/// `current`: the tag is a version, with `v` before it or without.
pub fn is_update(tag: &str, current: &str) -> (r: bool)
    ensures
        r == newer(without_leading(tag@, 'v'), current@),
{
    let t = chars_of(tag);
    let mut i: usize = 0;
    assert(t@.skip(0) =~= t@);
    while i < t.len() && t[i] == 'v'
        invariant
            i <= t@.len(),
            without_leading(t@, 'v') == without_leading(t@.skip(i as int), 'v'),
        decreases t@.len() - i,
    {
        assert(t@.skip(i as int).drop_first() =~= t@.skip(i + 1));
        i += 1;
    }
    assert(t@.skip(i as int) =~= t@.subrange(i as int, t@.len() as int));
    let rest = crate::text::string_of_range(t.as_slice(), i, t.len());
    is_newer(rest.as_str(), current)
}

/// The tag that the kept state names: its second word.
pub open spec fn cached_tag(state: Seq<char>) -> Option<Seq<char>> {
    if words(state).len() >= 2 {
        Some(words(state)[1])
    } else {
        None
    }
}

/// The tag that the kept state names.
pub fn read_cached_tag(state: &str) -> (r: Option<String>)
    ensures
        opt_view(r) == cached_tag(state@),
{
    let v = chars_of(state);
    let w = split_words(v.as_slice());
    if w.len() >= 2 {
        assert(rows(w@)[1] == w@[1]@);
        Some(string_of(w[1].as_slice()))
    } else {
        None
    }
}

/// The time of the last look that the kept state names: its first word as
/// a number of seconds; 0 where there is no state or it names no time.
pub open spec fn last_check(state: Option<Seq<char>>) -> nat {
    match state {
        Some(s) => if words(s).len() >= 1 {
            match parse_unsigned(words(s)[0], 0xffff_ffff_ffff_ffff) {
                Some(t) => t,
                None => 0,
            }
        } else {
            0
        },
        None => 0,
    }
}

/// Whether it is time to look again: a day or more has passed since the
/// last look.
pub fn should_check(state: Option<&str>, now: u64) -> (r: bool)
    ensures
        r == (now - last_check(
            match state {
                Some(s) => Some(s@),
                None => None,
            },
        ) >= CHECK_INTERVAL_SECS),
{
    let last: u64 = match state {
        Some(s) => {
            let v = chars_of(s);
            let w = split_words(v.as_slice());
            if w.len() >= 1 {
                assert(rows(w@)[0] == w@[0]@);
                match parse_number(w[0].as_slice(), 0xffff_ffff_ffff_ffff) {
                    Some(t) => t,
                    None => 0,
                }
            } else {
                0
            }
        },
        None => 0,
    };
    now >= last && now - last >= CHECK_INTERVAL_SECS
}

/// The state to keep after a look at `now` that found `tag`.
pub fn cache_entry(now: u64, tag: &str) -> (r: String)
    ensures
        r@ == decimal(now as nat).push('\t').add(tag@),
{
    let mut r = String::new();
    push_decimal(&mut r, now);
    r.push('\t');
    r.append(tag);
    assert(r@ =~= decimal(now as nat).push('\t').add(tag@));
    r
}

} // verus!
