//! Position-source enrichment from readsb's NDJSON stream: classifying the
//! `type` field, reading one line of the stream, the freshness of an entry,
//! and the `host:port` endpoint of an enrichment source. The socket reader
//! itself runs outside.

use vstd::prelude::*;

use crate::text::{chars_of, parse_unsigned, parse_unsigned_chars, split_chars, split_on, views};

verus! {

/// Position source as classified by readsb's `type` field.
#[derive(Debug, Clone, Copy, PartialEq, Eq, Structural)]
pub enum PositionSource {
    AdsbIcao,
    AdsbIcaoNt,
    AdsrIcao,
    TisbIcao,
    Adsc,
    Mlat,
    Other,
    Unknown,
}

/// The source named by a `type` value; values readsb may add later are
/// `Other`.
pub open spec fn position_source_of(type_str: Seq<char>) -> PositionSource {
    if type_str == "adsb_icao"@ {
        PositionSource::AdsbIcao
    } else if type_str == "adsb_icao_nt"@ {
        PositionSource::AdsbIcaoNt
    } else if type_str == "adsr_icao"@ {
        PositionSource::AdsrIcao
    } else if type_str == "tisb_icao"@ {
        PositionSource::TisbIcao
    } else if type_str == "adsc"@ {
        PositionSource::Adsc
    } else if type_str == "mlat"@ {
        PositionSource::Mlat
    } else {
        PositionSource::Other
    }
}

impl PositionSource {
    pub fn parse(type_str: &str) -> (r: PositionSource)
        ensures
            r == position_source_of(type_str@),
    {
        let t = String::from_str(type_str);
        if t == String::from_str("adsb_icao") {
            PositionSource::AdsbIcao
        } else if t == String::from_str("adsb_icao_nt") {
            PositionSource::AdsbIcaoNt
        } else if t == String::from_str("adsr_icao") {
            PositionSource::AdsrIcao
        } else if t == String::from_str("tisb_icao") {
            PositionSource::TisbIcao
        } else if t == String::from_str("adsc") {
            PositionSource::Adsc
        } else if t == String::from_str("mlat") {
            PositionSource::Mlat
        } else {
            PositionSource::Other
        }
    }
}

/// Enrichment info for a single aircraft, as of its last NDJSON update
/// (`updated_at` in nanoseconds on the caller's monotonic clock).
#[derive(Debug, Clone, Copy, PartialEq, Eq, Structural)]
pub struct EnrichmentInfo {
    pub source: PositionSource,
    pub nic: Option<u8>,
    pub updated_at: u64,
}

/// Entries older than this (180 s, the aircraft staleness timeout) are
/// treated as stale rather than returned as current.
pub const STALE_AFTER_NS: u64 = 180_000_000_000;

/// An entry updated at `updated_at` is still current at `now` (an update
/// later than `now` has zero age).
pub open spec fn is_current(updated_at: u64, now: u64) -> bool {
    now - updated_at < STALE_AFTER_NS
}

/// The entry, if it is still current at `now`.
pub fn current_info(info: Option<EnrichmentInfo>, now: u64) -> (r: Option<EnrichmentInfo>)
    ensures
        r == match info {
            Some(i) => if is_current(i.updated_at, now) { Some(i) } else { None },
            None => None,
        },
{
    match info {
        Some(i) => {
            if i.updated_at > now || now - i.updated_at < STALE_AFTER_NS {
                Some(i)
            } else {
                None
            }
        },
        None => None,
    }
}

/// The entry made from the fields of one NDJSON line: the `hex` field is
/// required; a missing or non-string `type` is `Unknown`; `nic`, when it is
/// an unsigned integer, is cut to its low byte.
pub open spec fn enrichment_from_fields_spec(
    hex: Option<Seq<char>>,
    type_str: Option<Seq<char>>,
    nic: Option<u64>,
    now: u64,
) -> Option<(Seq<char>, EnrichmentInfo)> {
    match hex {
        None => None,
        Some(h) => Some(
            (
                h,
                EnrichmentInfo {
                    source: match type_str {
                        Some(t) => position_source_of(t),
                        None => PositionSource::Unknown,
                    },
                    nic: match nic {
                        Some(n) => Some(n as u8),
                        None => None,
                    },
                    updated_at: now,
                },
            ),
        ),
    }
}

/// Builds the entry of one NDJSON line from its `hex`, `type` and `nic`
/// fields.
pub fn enrichment_from_fields(hex: Option<String>, type_str: Option<String>, nic: Option<u64>, now: u64) -> (r: Option<(String, EnrichmentInfo)>)
    ensures
        match (r, enrichment_from_fields_spec(
            match hex { Some(h) => Some(h@), None => None },
            match type_str { Some(t) => Some(t@), None => None },
            nic,
            now,
        )) {
            (Some((h, info)), Some((sh, sinfo))) => h@ == sh && info == sinfo,
            (None, None) => true,
            _ => false,
        },
{
    match hex {
        None => None,
        Some(h) => {
            let source = match type_str {
                Some(t) => PositionSource::parse(t.as_str()),
                None => PositionSource::Unknown,
            };
            let nic = match nic {
                Some(n) => Some(n as u8),
                None => None,
            };
            Some((h, EnrichmentInfo { source, nic, updated_at: now }))
        },
    }
}

/// Whether `text` is one complete JSON document (surrounding whitespace
/// allowed), as `serde_json::from_str::<serde_json::Value>` accepts it.
pub uninterp spec fn json_accepts(text: Seq<char>) -> bool;

/// The text of field `key` of the JSON object `text`, when `text` parses
/// as a JSON document that is an object whose `key` field is a string
/// (`serde_json::from_str::<Value>`, then `Value::get`, then
/// `Value::as_str`).
pub uninterp spec fn json_str_field(text: Seq<char>, key: Seq<char>) -> Option<Seq<char>>;

/// The value of field `key` of the JSON object `text`, when `text` parses
/// as a JSON document that is an object whose `key` field is an integer
/// that fits in a `u64` (`serde_json::from_str::<Value>`, then
/// `Value::get`, then `Value::as_u64`).
pub uninterp spec fn json_u64_field(text: Seq<char>, key: Seq<char>) -> Option<u64>;

/// The view of an optional string.
pub open spec fn opt_text(s: Option<String>) -> Option<Seq<char>> {
    match s {
        Some(t) => Some(t@),
        None => None,
    }
}

/// `serde_json::from_str::<Value>`: whether the text is one JSON document.
#[verifier::external_body]
fn json_is_document(text: &str) -> (r: bool)
    ensures
        r == json_accepts(text@),
{
    serde_json::from_str::<serde_json::Value>(text).is_ok()
}

/// A string field of a JSON object read from its text: the document parsed
/// by `serde_json::from_str::<Value>`, its field taken by `Value::get` and
/// read by `Value::as_str`. Text that does not parse has no field.
#[verifier::external_body]
fn json_str_field_of(text: &str, key: &str) -> (r: Option<String>)
    ensures
        opt_text(r) == json_str_field(text@, key@),
        !json_accepts(text@) ==> r is None,
{
    serde_json::from_str::<serde_json::Value>(text).ok().and_then(|v| v.get(key).and_then(|f| f.as_str().map(|t| t.to_string())))
}

/// An unsigned integer field of a JSON object read from its text: the
/// document parsed by `serde_json::from_str::<Value>`, its field taken by
/// `Value::get` and read by `Value::as_u64`. Text that does not parse has no
/// field.
#[verifier::external_body]
fn json_u64_field_of(text: &str, key: &str) -> (r: Option<u64>)
    ensures
        r == json_u64_field(text@, key@),
        !json_accepts(text@) ==> r is None,
{
    serde_json::from_str::<serde_json::Value>(text).ok().and_then(|v| v.get(key).and_then(|f| f.as_u64()))
}

/// Reads one NDJSON line of readsb's enrichment stream into the aircraft's
/// ICAO hex and its entry: malformed JSON gives nothing; otherwise the
/// result is `enrichment_from_fields_spec` of the line's `hex`, `type` and
/// `nic` fields. The `hex` text is returned as it stands: it is not checked
/// to be a valid ICAO address.
pub fn parse_enrichment_line(line: &str, now: u64) -> (r: Option<(String, EnrichmentInfo)>)
    ensures
        !json_accepts(line@) ==> r is None,
        json_accepts(line@) ==> match (
            r,
            enrichment_from_fields_spec(
                json_str_field(line@, "hex"@),
                json_str_field(line@, "type"@),
                json_u64_field(line@, "nic"@),
                now,
            ),
        ) {
            (Some((h, info)), Some((sh, sinfo))) => h@ == sh && info == sinfo,
            (None, None) => true,
            _ => false,
        },
{
    if !json_is_document(line) {
        return None;
    }
    let hex = json_str_field_of(line, "hex");
    let type_str = json_str_field_of(line, "type");
    let nic = json_u64_field_of(line, "nic");
    enrichment_from_fields(hex, type_str, nic, now)
}

/// The host and port of an enrichment source endpoint `host:port`: the text
/// before the first `:` must be non-empty and the rest a `u16`. (Text after
/// the first `:` that holds another `:` never reads as a number, so this is
/// the same as splitting at every `:` and asking for exactly two pieces.)
pub open spec fn endpoint_host_port(endpoint: Seq<char>) -> Option<(Seq<char>, u16)> {
    let pieces = split_on(endpoint, ':');
    if pieces.len() == 2 && pieces[0].len() > 0 {
        match parse_unsigned(pieces[1], 65535) {
            Some(port) => Some((pieces[0], port as u16)),
            None => None,
        }
    } else {
        None
    }
}

/// Splits an enrichment endpoint into host and port.
pub fn parse_enrichment_endpoint(endpoint: &str) -> (r: Option<(Vec<char>, u16)>)
    ensures
        match (r, endpoint_host_port(endpoint@)) {
            (Some((h, p)), Some((sh, sp))) => h@ == sh && p == sp,
            (None, None) => true,
            _ => false,
        },
{
    let chars = chars_of(endpoint);
    let mut pieces = split_chars(&chars, ':');
    proof {
        assert(views(pieces@).len() == pieces@.len());
    }
    if pieces.len() != 2 {
        return None;
    }
    assert(pieces@[0]@ == split_on(endpoint@, ':')[0]);
    assert(pieces@[1]@ == split_on(endpoint@, ':')[1]);
    if pieces[0].len() == 0 {
        return None;
    }
    match parse_unsigned_chars(&pieces[1], 65535) {
        Some(port) => {
            let host = pieces.remove(0);
            Some((host, port as u16))
        },
        None => None,
    }
}

} // verus!
