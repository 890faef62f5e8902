//! Checks on the gear forms before anything is stored.
use vstd::prelude::*;
use crate::keys::seg;
use crate::store::lemma_encoding_injective;

verus! {

/// Why a gear form is turned down.
#[derive(Debug, Clone, Copy, PartialEq, Eq, Structural)]
pub enum GearFormError {
    /// The gear type is not one that is known.
    WrongGearType,
    /// The form renames the gear it edits.
    WrongGearName,
    /// The new gear has an empty name.
    EmptyName,
    /// The account already has gear of that name.
    AlreadyExists,
}

/// Whether two texts are equal, compared byte by byte.
pub fn same_text(a: &str, b: &str) -> (r: bool)
    ensures
        r == (a@ == b@),
{
    let x = a.as_bytes();
    let y = b.as_bytes();
    proof {
        lemma_encoding_injective(a@, b@);
    }
    if x.len() != y.len() {
        return false;
    }
    let mut i: usize = 0;
    while i < x.len()
        invariant
            x@ == seg(a@),
            y@ == seg(b@),
            x@.len() == y@.len(),
            0 <= i <= x@.len(),
            forall|j: int| 0 <= j < i ==> x@[j] == y@[j],
        decreases x@.len() - i,
    {
        if x[i] != y[i] {
            return false;
        }
        i = i + 1;
    }
    proof {
        assert(x@ =~= y@);
    }
    true
}

/// The check on a form that adds gear `name`: the type first, then the
/// name, then whether the account already has gear of that name.
pub fn check_gear_add(gear_type_known: bool, name: &str, exists: bool) -> (r: Option<GearFormError>)
    ensures
        r == (if !gear_type_known {
            Some(GearFormError::WrongGearType)
        } else if name@.len() == 0 {
            Some(GearFormError::EmptyName)
        } else if exists {
            Some(GearFormError::AlreadyExists)
        } else {
            None
        }),
{
    if !gear_type_known {
        Some(GearFormError::WrongGearType)
    } else if name.is_empty() {
        Some(GearFormError::EmptyName)
    } else if exists {
        Some(GearFormError::AlreadyExists)
    } else {
        None
    }
}

/// The check on a form that edits gear `gear_name`: the type first, then
/// whether the form keeps the gear's name.
pub fn check_gear_settings(gear_type_known: bool, gear_name: &str, form_name: &str) -> (r: Option<GearFormError>)
    ensures
        r == (if !gear_type_known {
            Some(GearFormError::WrongGearType)
        } else if gear_name@ != form_name@ {
            Some(GearFormError::WrongGearName)
        } else {
            None
        }),
{
    if !gear_type_known {
        Some(GearFormError::WrongGearType)
    } else if !same_text(gear_name, form_name) {
        Some(GearFormError::WrongGearName)
    } else {
        None
    }
}

} // verus!
