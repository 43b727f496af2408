//! The parametric equalizer's filter kinds.
use vstd::prelude::*;
use crate::text::{chars_eq, chars_of, string_from_chars, trim, trim_chars};

verus! {

/// The shape of one equalizer band.
#[derive(Debug, Clone, Copy, PartialEq, Eq, Structural)]
pub enum EqFilterType {
    Peak,
    LowShelf,
    HighShelf,
    HighPass,
    LowPass,
}

impl EqFilterType {
    /// The name shown for the kind.
    pub fn label(self) -> (r: &'static str)
        ensures
            r@ == match self {
                EqFilterType::Peak => "Peak"@,
                EqFilterType::LowShelf => "Low Shelf"@,
                EqFilterType::HighShelf => "High Shelf"@,
                EqFilterType::HighPass => "High Pass"@,
                EqFilterType::LowPass => "Low Pass"@,
            },
    {
        match self {
            EqFilterType::Peak => "Peak",
            EqFilterType::LowShelf => "Low Shelf",
            EqFilterType::HighShelf => "High Shelf",
            EqFilterType::HighPass => "High Pass",
            EqFilterType::LowPass => "Low Pass",
        }
    }
}


/// A named equalizer profile that the user saved.
pub struct UserPreset<P> {
    pub name: String,
    pub profile: P,
}

/// The first index from `j` on whose preset has this name (or the length).
pub open spec fn first_named<P>(ps: Seq<UserPreset<P>>, name: Seq<char>, j: int) -> int
    decreases ps.len() - j,
{
    if j < 0 || j >= ps.len() {
        ps.len() as int
    } else if ps[j].name@ == name {
        j
    } else {
        first_named(ps, name, j + 1)
    }
}

/// Saves the current profile under a name (trimmed; an empty name saves
/// nothing). A preset with that name gets the new profile and the selection is
/// kept; otherwise the preset is added at the end and selected.
pub fn save_user_preset<P>(presets: &mut Vec<UserPreset<P>>, selected: &mut Option<usize>, name: &str, profile: P)
    ensures
        ({
            let clean = trim(name@);
            let i = first_named(old(presets)@, clean, 0);
            if clean.len() == 0 {
                final(presets)@ == old(presets)@ && *final(selected) == *old(selected)
            } else if i < old(presets)@.len() {
                &&& final(presets)@.len() == old(presets)@.len()
                &&& final(presets)@[i].name@ == clean
                &&& final(presets)@[i].profile == profile
                &&& forall|j: int| 0 <= j < old(presets)@.len() && j != i ==> #[trigger] final(presets)@[j] == old(presets)@[j]
                &&& *final(selected) == *old(selected)
            } else {
                &&& final(presets)@.len() == old(presets)@.len() + 1
                &&& final(presets)@.drop_last() == old(presets)@
                &&& final(presets)@.last().name@ == clean
                &&& final(presets)@.last().profile == profile
                &&& *final(selected) == Some(old(presets)@.len() as usize)
            }
        }),
{
    let clean = trim_chars(&chars_of(name));
    if clean.len() == 0 {
        return;
    }
    let ghost ps = presets@;
    let mut i: usize = 0;
    while i < presets.len()
        invariant
            i <= presets.len(),
            presets@ == ps,
            ps == old(presets)@,
            *selected == *old(selected),
            clean@ == trim(name@),
            clean@.len() > 0,
            first_named(ps, clean@, i as int) == first_named(ps, clean@, 0),
        decreases presets.len() - i,
    {
        if chars_eq(&chars_of(presets[i].name.as_str()), &clean) {
            proof {
                assert(ps[i as int].name@ == clean@);
                assert(first_named(ps, clean@, i as int) == i);
            }
            let old_p = presets.remove(i);
            presets.insert(i, UserPreset { name: old_p.name, profile });
            proof {
                assert(presets@[i as int].name@ == clean@);
                assert forall|j: int| 0 <= j < ps.len() && j != i implies #[trigger] presets@[j] == ps[j] by {}
            }
            return;
        }
        i = i + 1;
    }
    presets.push(UserPreset { name: string_from_chars(clean.as_slice()), profile });
    proof {
        assert(presets@.drop_last() =~= ps);
    }
    *selected = Some(presets.len() - 1);
}

/// The profile of the selected preset, when the selection points at one.
pub fn selected_preset<P>(presets: &Vec<UserPreset<P>>, selected: Option<usize>) -> (r: Option<&P>)
    ensures
        match selected {
            Some(i) => if i < presets@.len() {
                r == Some(&presets@[i as int].profile)
            } else {
                r is None
            },
            None => r is None,
        },
{
    match selected {
        Some(i) => if i < presets.len() {
            Some(&presets[i].profile)
        } else {
            None
        },
        None => None,
    }
}

/// Deletes the selected preset; the selection moves to the preset now at that
/// place, or to the last one, and is cleared when none is left.
pub fn delete_selected_preset<P>(presets: &mut Vec<UserPreset<P>>, selected: &mut Option<usize>)
    ensures
        match *old(selected) {
            Some(i) => {
                &&& final(presets)@ == (if i < old(presets)@.len() {
                    old(presets)@.remove(i as int)
                } else {
                    old(presets)@
                })
                &&& *final(selected) == (if final(presets)@.len() == 0 {
                    None
                } else if i < final(presets)@.len() {
                    Some(i)
                } else {
                    Some((final(presets)@.len() - 1) as usize)
                })
            },
            None => final(presets)@ == old(presets)@ && *final(selected) is None,
        },
{
    if let Some(i) = *selected {
        if i < presets.len() {
            presets.remove(i);
        }
        *selected = if presets.len() == 0 {
            None
        } else if i < presets.len() {
            Some(i)
        } else {
            Some(presets.len() - 1)
        };
    }
}

/// How many bands the parametric equalizer has.
pub const EQ_BANDS: usize = 6;

/// Makes a list of bands exactly `EQ_BANDS` long: extra bands are dropped and
/// missing ones are filled with `fill` (as loading a profile does).
pub fn fit_bands<T: Copy>(bands: &mut Vec<T>, fill: T)
    ensures
        final(bands)@.len() == EQ_BANDS,
        forall|i: int| 0 <= i < EQ_BANDS && i < old(bands)@.len() ==> #[trigger] final(bands)@[i] == old(bands)@[i],
        forall|i: int| old(bands)@.len() <= i < EQ_BANDS ==> #[trigger] final(bands)@[i] == fill,
{
    while bands.len() < EQ_BANDS
        invariant
            forall|i: int| 0 <= i < old(bands)@.len() && i < bands@.len() ==> #[trigger] bands@[i] == old(bands)@[i],
            forall|i: int| old(bands)@.len() <= i < bands@.len() ==> #[trigger] bands@[i] == fill,
            bands@.len() >= old(bands)@.len(),
        decreases EQ_BANDS - bands.len(),
    {
        bands.push(fill);
    }
    bands.truncate(EQ_BANDS);
}

} // verus!
