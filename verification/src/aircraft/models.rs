//! Which 3D model an aircraft type gets: the Boeing 737 family has a model
//! (with a correction transform) of its own, every other type the default.

use vstd::prelude::*;

verus! {

/// The aircraft models on hand.
#[derive(Debug, Clone, Copy, PartialEq, Eq, Structural)]
pub enum AircraftModel {
    /// The default airliner model.
    Default,
    /// The Boeing 737 model.
    B737,
}

/// ICAO type designators drawn with the Boeing 737 model.
pub open spec fn is_b737_type(code: Seq<char>) -> bool {
    ||| code == "B731"@
    ||| code == "B732"@
    ||| code == "B733"@
    ||| code == "B734"@
    ||| code == "B735"@
    ||| code == "B736"@
    ||| code == "B737"@
    ||| code == "B738"@
    ||| code == "B739"@
    ||| code == "B37M"@
    ||| code == "B38M"@
    ||| code == "B39M"@
}

/// The model for an aircraft of the given type (unknown types get the
/// default).
pub open spec fn model_for(type_code: Option<Seq<char>>) -> AircraftModel {
    match type_code {
        Some(c) if is_b737_type(c) => AircraftModel::B737,
        _ => AircraftModel::Default,
    }
}

/// Picks the model for a type code.
pub fn model_for_type(type_code: Option<&str>) -> (r: AircraftModel)
    ensures
        r == model_for(match type_code {
            Some(c) => Some(c@),
            None => None,
        }),
{
    match type_code {
        None => AircraftModel::Default,
        Some(c) => {
            let t = String::from_str(c);
            if t == String::from_str("B731") || t == String::from_str("B732") || t == String::from_str(
                "B733",
            ) || t == String::from_str("B734") || t == String::from_str("B735") || t
                == String::from_str("B736") || t == String::from_str("B737") || t == String::from_str(
                "B738",
            ) || t == String::from_str("B739") || t == String::from_str("B37M") || t
                == String::from_str("B38M") || t == String::from_str("B39M") {
                AircraftModel::B737
            } else {
                AircraftModel::Default
            }
        },
    }
}

/// Whether a type's model needs the correction transform after loading
/// (only the 737 model does).
pub fn needs_model_correction(type_code: Option<&str>) -> (r: bool)
    ensures
        r == (model_for(match type_code {
            Some(c) => Some(c@),
            None => None,
        }) == AircraftModel::B737),
{
    model_for_type(type_code) == AircraftModel::B737
}

} // verus!
