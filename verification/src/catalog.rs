//! The fixed catalogue of items a level draws from.

use vstd::prelude::*;

verus! {

/// Number of entries in the catalogue.
pub const CATALOG_SIZE: usize = 12;

/// Smallest value an item's largest setting can take.
pub const MAX_VALUE_LOW: u8 = 2;

/// Bound that an item's largest setting stays below.
pub const MAX_VALUE_HIGH: u8 = 10;

/// The label of catalogue entry `id`; empty outside the catalogue.
pub open spec fn catalog_label(id: int) -> Seq<char> {
    if id == 0 {
        "Chemex Coffeemaker"@
    } else if id == 1 {
        "Sound system"@
    } else if id == 2 {
        "Pizza oven"@
    } else if id == 3 {
        "Foot massager"@
    } else if id == 4 {
        "Heating"@
    } else if id == 5 {
        "Radio"@
    } else if id == 6 {
        "Windshield wiper"@
    } else if id == 7 {
        "Flux compensator"@
    } else if id == 8 {
        "Warp Core"@
    } else if id == 9 {
        "Fridge"@
    } else if id == 10 {
        "Fireplace"@
    } else if id == 11 {
        "Ventilation"@
    } else {
        Seq::empty()
    }
}

/// The label of catalogue entry `id`, and the empty string for an `id`
/// outside the catalogue.
pub fn item_label(id: usize) -> (label: String)
    ensures
        label@ == catalog_label(id as int),
{
    if id == 0 {
        "Chemex Coffeemaker".to_owned()
    } else if id == 1 {
        "Sound system".to_owned()
    } else if id == 2 {
        "Pizza oven".to_owned()
    } else if id == 3 {
        "Foot massager".to_owned()
    } else if id == 4 {
        "Heating".to_owned()
    } else if id == 5 {
        "Radio".to_owned()
    } else if id == 6 {
        "Windshield wiper".to_owned()
    } else if id == 7 {
        "Flux compensator".to_owned()
    } else if id == 8 {
        "Warp Core".to_owned()
    } else if id == 9 {
        "Fridge".to_owned()
    } else if id == 10 {
        "Fireplace".to_owned()
    } else if id == 11 {
        "Ventilation".to_owned()
    } else {
        String::new()
    }
}

} // verus!
