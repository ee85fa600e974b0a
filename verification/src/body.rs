//! Description of the bodies that populate a simulation.

use vstd::prelude::*;
use vstd::string::StringSliceAdditionalSpecFns;

verus! {

/// Handle to a body inside a simulation.
///
/// It is an index, so it is only meaningful for the simulation that produced
/// it, and only stays valid as long as no body is removed.
#[derive(Debug, Clone, Copy, PartialEq, Eq, Structural, PartialOrd, Ord, Hash)]
pub struct BodyId(pub usize);

impl BodyId {
    /// The underlying index.
    #[inline]
    pub fn index(self) -> (index: usize)
        ensures
            index == self.0,
    {
        self.0
    }
}

/// Broad classification of a body, used for filtering and presentation.
///
/// It carries no dynamical meaning: a moon and a planet obey exactly the same
/// equations.
#[derive(Debug, Clone, Copy, PartialEq, Eq, Structural, Hash)]
pub enum BodyKind {
    /// Self-luminous body; acts as a light source when rendering.
    Star,
    /// Planet orbiting a star.
    Planet,
    /// Dwarf planet (Pluto, Ceres, Eris…).
    DwarfPlanet,
    /// Natural satellite of a planet or dwarf planet.
    Moon,
    /// Minor body of the asteroid population.
    Asteroid,
    /// Icy minor body on a typically eccentric orbit.
    Comet,
    /// Artificial object.
    Spacecraft,
}

impl Default for BodyKind {
    /// A planet: the most common kind of body in a planetary system.
    fn default() -> (kind: BodyKind)
        ensures
            kind == BodyKind::Planet,
    {
        BodyKind::Planet
    }
}

/// The human-readable name of each category.
pub open spec fn kind_label(kind: BodyKind) -> Seq<char> {
    match kind {
        BodyKind::Star => "star"@,
        BodyKind::Planet => "planet"@,
        BodyKind::DwarfPlanet => "dwarf planet"@,
        BodyKind::Moon => "moon"@,
        BodyKind::Asteroid => "asteroid"@,
        BodyKind::Comet => "comet"@,
        BodyKind::Spacecraft => "spacecraft"@,
    }
}

impl BodyKind {
    /// Whether bodies of this kind emit their own light.
    #[inline]
    pub fn is_luminous(self) -> (luminous: bool)
        ensures
            luminous <==> self == BodyKind::Star,
    {
        matches!(self, BodyKind::Star)
    }

    /// Human-readable name of the category.
    pub fn label(self) -> (label: &'static str)
        ensures
            label@ == kind_label(self),
    {
        match self {
            BodyKind::Star => "star",
            BodyKind::Planet => "planet",
            BodyKind::DwarfPlanet => "dwarf planet",
            BodyKind::Moon => "moon",
            BodyKind::Asteroid => "asteroid",
            BodyKind::Comet => "comet",
            BodyKind::Spacecraft => "spacecraft",
        }
    }
}

/// A byte with ASCII upper-case letters mapped to lower case, as
/// `u8::to_ascii_lowercase` does.
pub open spec fn ascii_lowercase(b: u8) -> u8 {
    if 65 <= b <= 90 {
        (b + 32) as u8
    } else {
        b
    }
}

/// Whether two byte strings are equal once ASCII letters are folded to lower
/// case, as `str::eq_ignore_ascii_case` decides.
pub open spec fn ascii_case_insensitive_eq(a: Seq<u8>, b: Seq<u8>) -> bool {
    a.len() == b.len() && forall|i: int| 0 <= i < a.len() ==> ascii_lowercase(a[i]) == ascii_lowercase(b[i])
}

/// Whether a byte is an ASCII letter, upper (`A` to `Z`) or lower (`a` to `z`)
/// case.
pub open spec fn is_ascii_letter(b: u8) -> bool {
    (65 <= b <= 90) || (97 <= b <= 122)
}

/// Two bytes are the same letter in different cases exactly when both are
/// ASCII letters and they lie 32 apart (`A` is 65, `a` is 97).
pub open spec fn same_letter_other_case(x: u8, y: u8) -> bool {
    is_ascii_letter(x) && is_ascii_letter(y) && (x as int - y as int == 32 || y as int - x as int == 32)
}

/// Case folding identifies exactly the pairs of bytes that are equal or are
/// the same ASCII letter in upper and lower case: every upper-case letter `A`
/// to `Z` folds onto its lower-case letter, and nothing else is merged.
pub proof fn lemma_folding_merges_only_letter_cases(x: u8, y: u8)
    ensures
        ascii_lowercase(x) == ascii_lowercase(y) <==> (x == y || same_letter_other_case(x, y)),
        65 <= x <= 90 ==> ascii_lowercase(x) as int == x as int + 32,
        !(65 <= x <= 90) ==> ascii_lowercase(x) == x,
{
}

/// Two names match exactly when they have the same length and, position by
/// position, the same byte or the same ASCII letter in the other case.
pub proof fn lemma_names_match_exactly_up_to_letter_case(a: Seq<u8>, b: Seq<u8>)
    ensures
        ascii_case_insensitive_eq(a, b) <==> (a.len() == b.len() && forall|i: int|
            0 <= i < a.len() ==> a[i] == b[i] || same_letter_other_case(a[i], b[i])),
{
    assert forall|i: int| 0 <= i < a.len() && i < b.len() implies (ascii_lowercase(a[i]) == ascii_lowercase(b[i])
        <==> (a[i] == b[i] || same_letter_other_case(a[i], b[i]))) by {
        lemma_folding_merges_only_letter_cases(a[i], b[i]);
    }
}

/// Whether the names `a` and `b` match, ignoring ASCII case.
pub fn names_match(a: &str, b: &str) -> (same: bool)
    ensures
        same == ascii_case_insensitive_eq(a.spec_bytes(), b.spec_bytes()),
{
    let left = a.as_bytes();
    let right = b.as_bytes();
    if left.len() != right.len() {
        return false;
    }
    let mut i: usize = 0;
    while i < left.len()
        invariant
            left@ == a.spec_bytes(),
            right@ == b.spec_bytes(),
            left@.len() == right@.len(),
            i <= left@.len(),
            forall|k: int| 0 <= k < i ==> ascii_lowercase(left@[k]) == ascii_lowercase(right@[k]),
        decreases left@.len() - i,
    {
        let (x, y) = (left[i], right[i]);
        let lower_x = if 65 <= x && x <= 90 {
            x + 32
        } else {
            x
        };
        let lower_y = if 65 <= y && y <= 90 {
            y + 32
        } else {
            y
        };
        assert(lower_x == ascii_lowercase(left@[i as int]) && lower_y == ascii_lowercase(right@[i as int]));
        if lower_x != lower_y {
            return false;
        }
        i += 1;
    }
    true
}

/// Looks a body up by name, case-insensitively (ASCII letters only), in the
/// list of names in handle order: the first body whose name matches.
pub fn find_body(names: &[&str], name: &str) -> (found: Option<BodyId>)
    ensures
        match found {
            Some(id) => {
                &&& id.0 < names@.len()
                &&& ascii_case_insensitive_eq(names@[id.0 as int].spec_bytes(), name.spec_bytes())
                &&& forall|k: int|
                    0 <= k < id.0 ==> !ascii_case_insensitive_eq(names@[k].spec_bytes(), name.spec_bytes())
            },
            None => forall|k: int|
                0 <= k < names@.len() ==> !ascii_case_insensitive_eq(names@[k].spec_bytes(), name.spec_bytes()),
        },
{
    let mut index: usize = 0;
    while index < names.len()
        invariant
            index <= names@.len(),
            forall|k: int|
                0 <= k < index ==> !ascii_case_insensitive_eq(names@[k].spec_bytes(), name.spec_bytes()),
        decreases names@.len() - index,
    {
        if names_match(names[index], name) {
            return Some(BodyId(index));
        }
        index += 1;
    }
    None
}

/// The first self-luminous body among `kinds` (given in handle order), which
/// is where the scene puts its light.
pub fn first_luminous(kinds: &[BodyKind]) -> (found: Option<BodyId>)
    ensures
        match found {
            Some(id) => {
                &&& id.0 < kinds@.len()
                &&& kinds@[id.0 as int] == BodyKind::Star
                &&& forall|k: int| 0 <= k < id.0 ==> kinds@[k] != BodyKind::Star
            },
            None => forall|k: int| 0 <= k < kinds@.len() ==> kinds@[k] != BodyKind::Star,
        },
{
    let mut index: usize = 0;
    while index < kinds.len()
        invariant
            index <= kinds@.len(),
            forall|k: int| 0 <= k < index ==> kinds@[k] != BodyKind::Star,
        decreases kinds@.len() - index,
    {
        if kinds[index].is_luminous() {
            return Some(BodyId(index));
        }
        index += 1;
    }
    None
}

} // verus!
