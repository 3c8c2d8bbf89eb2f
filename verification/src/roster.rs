//! The cast of a race: which marbles run, under which nickname and face image.
use vstd::prelude::*;

use crate::args::RosterSpec;
use crate::text::{decimal, lowercase_of_text, push_decimal, texts, to_lowercase};

verus! {

/// The most marbles the 3×3 starting grid holds.
pub const MAX_MARBLES: usize = 9;

/// One marble of the cast.
pub struct MarbleConfig {
    pub nickname: String,
    /// The face image, relative to the assets directory; anonymous marbles have none.
    pub image: Option<String>,
}

/// The cast of the race.
pub struct Roster(pub Vec<MarbleConfig>);

/// Why a cast cannot be built.
pub enum RosterError {
    /// More characters were asked for than the starting grid holds.
    TooManyCharacters(usize),
    /// A character has no face image under the assets directory.
    MissingImage { name: String, image: String },
    /// The slot count is not between 1 and the grid size.
    SlotsOutOfRange(usize),
}

/// The message a cast error is reported with.
pub open spec fn error_message(e: RosterError) -> Seq<char> {
    match e {
        RosterError::TooManyCharacters(n) => "Pediste "@ + decimal(n as nat)
            + " personajes pero el grid de salida es 3×3 (máximo 9)."@,
        RosterError::MissingImage { name, image } => "Personaje '"@ + name@
            + "' sin imagen: falta assets/"@ + image@
            + ". Revisa el nombre (CamelCase canónico) o agrega el asset."@,
        RosterError::SlotsOutOfRange(n) => "--slots "@ + decimal(n as nat)
            + ": el grid de salida es 3×3 (entre 1 y 9)."@,
    }
}

impl RosterError {
    /// The message the error is reported with.
    pub fn message(&self) -> (m: String)
        ensures
            m@ == error_message(*self),
    {
        match self {
            RosterError::TooManyCharacters(n) => {
                let mut m = String::from_str("Pediste ");
                push_decimal(&mut m, *n as u64);
                m.append(" personajes pero el grid de salida es 3×3 (máximo 9).");
                m
            },
            RosterError::MissingImage { name, image } => {
                let mut m = String::from_str("Personaje '");
                m.append(name.as_str());
                m.append("' sin imagen: falta assets/");
                m.append(image.as_str());
                m.append(". Revisa el nombre (CamelCase canónico) o agrega el asset.");
                m
            },
            RosterError::SlotsOutOfRange(n) => {
                let mut m = String::from_str("--slots ");
                push_decimal(&mut m, *n as u64);
                m.append(": el grid de salida es 3×3 (entre 1 y 9).");
                m
            },
        }
    }
}

/// The face image of a character: `characters/<lower-case name>.png`.
pub open spec fn character_image(name: Seq<char>) -> Seq<char> {
    "characters/"@ + lowercase_of_text(name) + ".png"@
}

/// The nickname of the anonymous marble in slot `i`: `slot_<i>`.
pub open spec fn slot_nickname(i: nat) -> Seq<char> {
    "slot_"@ + decimal(i)
}

/// The names of the default cast, in grid order.
pub open spec fn default_names() -> Seq<Seq<char>> {
    seq![
        "Marceline"@,
        "Perla"@,
        "Steven"@,
        "Wendy"@,
        "Naruto"@,
        "Ben10"@,
        "Patricio"@,
        "Finn"@,
        "Bart"@,
    ]
}

/// Whether `config` is the named character with its face image.
pub open spec fn is_character(config: MarbleConfig, name: Seq<char>) -> bool {
    &&& config.nickname@ == name
    &&& config.image matches Some(image) && image@ == character_image(name)
}

/// Whether `e` reports the named character's missing face image.
pub open spec fn is_missing_image(e: RosterError, name: Seq<char>) -> bool {
    e matches RosterError::MissingImage { name: n, image } && n@ == name && image@
        == character_image(name)
}

/// Whether `configs` is exactly the characters `names`, in order.
pub open spec fn are_characters(configs: Seq<MarbleConfig>, names: Seq<Seq<char>>) -> bool {
    &&& configs.len() == names.len()
    &&& forall|i: int| 0 <= i < names.len() ==> is_character(#[trigger] configs[i], names[i])
}

/// The path of an asset: `assets/<relative>`.
pub open spec fn spec_asset_path(relative: Seq<char>) -> Seq<char> {
    "assets/"@ + relative
}

/// The path of an asset, under the assets directory.
pub fn asset_path(relative: &str) -> (path: String)
    ensures
        path@ == spec_asset_path(relative@),
{
    let mut path = String::from_str("assets/");
    path.append(relative);
    path
}

/// Calls `Path::exists` on `path`. What is on disk is not known here, so nothing is
/// promised of the answer.
#[verifier::external_body]
fn path_exists(path: &str) -> (present: bool) {
    std::path::Path::new(path).exists()
}

/// Whether `r` is the cast of `names` when `present` tells, name by name, whether the
/// face image is on disk: every character, in order, when all images are there; else
/// the missing image of the first name whose image is not.
pub open spec fn is_cast_outcome(
    names: Seq<Seq<char>>,
    present: Seq<bool>,
    r: Result<Vec<MarbleConfig>, RosterError>,
) -> bool {
    match r {
        Ok(v) => (forall|j: int| 0 <= j < names.len() ==> #[trigger] present[j]) && are_characters(
            v@,
            names,
        ),
        Err(e) => exists|k: int|
            0 <= k < names.len() && !present[k] && (forall|j: int| 0 <= j < k ==> #[trigger] present[j])
                && #[trigger] is_missing_image(e, names[k]),
    }
}

/// The face image path of a character.
pub fn character_image_path(name: &str) -> (image: String)
    ensures
        image@ == character_image(name@),
{
    let mut image = String::from_str("characters/");
    let lower = to_lowercase(name);
    image.append(lower.as_str());
    image.append(".png");
    image
}

/// A character as a marble, given whether its face image is present.
pub fn character_from_image(name: &str, image: String, image_present: bool) -> (r: Result<
    MarbleConfig,
    RosterError,
>)
    ensures
        image_present ==> (r matches Ok(c) && c.nickname@ == name@ && c.image == Some(image)),
        !image_present ==> (r matches Err(RosterError::MissingImage { name: n, image: i }) && n@
            == name@ && i == image),
{
    if image_present {
        Ok(MarbleConfig { nickname: String::from_str(name), image: Some(image) })
    } else {
        Err(RosterError::MissingImage { name: String::from_str(name), image })
    }
}

/// A character as a marble: its name and face image, or the error that the image is
/// missing.
pub fn character_config(name: &str) -> (r: Result<MarbleConfig, RosterError>)
    ensures
        match r {
            Ok(c) => is_character(c, name@),
            Err(e) => is_missing_image(e, name@),
        },
{
    let image = character_image_path(name);
    let path = asset_path(image.as_str());
    let present = path_exists(path.as_str());
    character_from_image(name, image, present)
}

/// The characters `names` as marbles, in order, stopping at the first whose image is
/// missing.
fn characters_config(names: &Vec<String>) -> (r: Result<Vec<MarbleConfig>, RosterError>)
    ensures
        exists|present: Seq<bool>|
            present.len() == names.len() && #[trigger] is_cast_outcome(texts(names@), present, r),
{
    let mut configs: Vec<MarbleConfig> = Vec::new();
    let mut i: usize = 0;
    while i < names.len()
        invariant
            i <= names.len(),
            are_characters(configs@, texts(names@).take(i as int)),
        decreases names.len() - i,
    {
        match character_config(names[i].as_str()) {
            Ok(c) => {
                configs.push(c);
            },
            Err(e) => {
                let r: Result<Vec<MarbleConfig>, RosterError> = Err(e);
                proof {
                    let present = Seq::new(names.len() as nat, |j: int| j != i);
                    assert(texts(names@)[i as int] == names@[i as int]@);
                    assert(is_missing_image(e, texts(names@)[i as int]));
                    assert(is_cast_outcome(texts(names@), present, r));
                }
                return r;
            },
        }
        i += 1;
    }
    assert(texts(names@).take(names.len() as int) =~= texts(names@));
    let r: Result<Vec<MarbleConfig>, RosterError> = Ok(configs);
    proof {
        let present = Seq::new(names.len() as nat, |j: int| true);
        assert(is_cast_outcome(texts(names@), present, r));
    }
    r
}

/// The default cast, every character with its face image.
pub fn default_roster() -> (r: Result<Vec<MarbleConfig>, RosterError>)
    ensures
        exists|present: Seq<bool>|
            present.len() == 9 && #[trigger] is_cast_outcome(default_names(), present, r),
{
    let mut names: Vec<String> = Vec::new();
    names.push(String::from_str("Marceline"));
    names.push(String::from_str("Perla"));
    names.push(String::from_str("Steven"));
    names.push(String::from_str("Wendy"));
    names.push(String::from_str("Naruto"));
    names.push(String::from_str("Ben10"));
    names.push(String::from_str("Patricio"));
    names.push(String::from_str("Finn"));
    names.push(String::from_str("Bart"));
    assert(texts(names@) =~= default_names());
    characters_config(&names)
}

/// The cast for the given characters, or the default cast when none are given. At most
/// nine characters fit the starting grid.
pub fn build_roster(characters: Option<Vec<String>>) -> (r: Result<Vec<MarbleConfig>, RosterError>)
    ensures
        match characters {
            None => exists|present: Seq<bool>|
                present.len() == 9 && #[trigger] is_cast_outcome(default_names(), present, r),
            Some(names) => if names.len() > MAX_MARBLES {
                r matches Err(RosterError::TooManyCharacters(n)) && n == names.len()
            } else {
                exists|present: Seq<bool>|
                    present.len() == names.len() && #[trigger] is_cast_outcome(
                        texts(names@),
                        present,
                        r,
                    )
            },
        },
{
    match characters {
        None => default_roster(),
        Some(names) => {
            if names.len() > MAX_MARBLES {
                Err(RosterError::TooManyCharacters(names.len()))
            } else {
                characters_config(&names)
            }
        },
    }
}

/// `n` anonymous marbles named `slot_0`, `slot_1`, …; `n` must be between 1 and nine.
pub fn slots_roster(n: usize) -> (r: Result<Vec<MarbleConfig>, RosterError>)
    ensures
        (n == 0 || n > MAX_MARBLES) <==> r is Err,
        r matches Err(RosterError::SlotsOutOfRange(m)) ==> m == n,
        r matches Err(e) ==> e is SlotsOutOfRange,
        r matches Ok(v) ==> v.len() == n && forall|i: int|
            0 <= i < n ==> (#[trigger] v@[i]).nickname@ == slot_nickname(i as nat) && v@[i].image
                is None,
{
    if n == 0 || n > MAX_MARBLES {
        return Err(RosterError::SlotsOutOfRange(n));
    }
    let mut configs: Vec<MarbleConfig> = Vec::new();
    let mut i: usize = 0;
    while i < n
        invariant
            i <= n <= MAX_MARBLES,
            configs.len() == i,
            forall|j: int|
                0 <= j < i ==> (#[trigger] configs@[j]).nickname@ == slot_nickname(j as nat)
                    && configs@[j].image is None,
        decreases n - i,
    {
        let mut nickname = String::from_str("slot_");
        push_decimal(&mut nickname, i as u64);
        configs.push(MarbleConfig { nickname, image: None });
        i += 1;
    }
    Ok(configs)
}

/// The cell of the 3×3 starting grid where the marble at position `i` of the cast starts,
/// as (column, row) steps from the grid's centre: the cells are filled row by row from
/// the top (row 1) down, each row from the left (column -1) to the right.
pub open spec fn start_cell(i: int) -> (i32, i32) {
    ((i % 3 - 1) as i32, (1 - i / 3) as i32)
}

/// The cells of the starting grid, in the order the cast takes them.
pub fn spawn_grid() -> (cells: Vec<(i32, i32)>)
    ensures
        cells.len() == MAX_MARBLES,
        forall|i: int| 0 <= i < MAX_MARBLES ==> #[trigger] cells@[i] == start_cell(i),
{
    let mut cells: Vec<(i32, i32)> = Vec::new();
    let mut row: i32 = 1;
    while row >= -1
        invariant
            -2 <= row <= 1,
            cells.len() == 3 * (1 - row),
            forall|i: int| 0 <= i < cells.len() ==> #[trigger] cells@[i] == start_cell(i),
        decreases row + 2,
    {
        let mut col: i32 = -1;
        while col <= 1
            invariant
                -1 <= row <= 1,
                -1 <= col <= 2,
                cells.len() == 3 * (1 - row) + (col + 1),
                forall|i: int| 0 <= i < cells.len() ==> #[trigger] cells@[i] == start_cell(i),
            decreases 2 - col,
        {
            cells.push((col, row));
            col += 1;
        }
        row -= 1;
    }
    cells
}

/// No two marbles of a cast start in the same cell of the grid.
pub proof fn law_start_cells_are_distinct(i: int, j: int)
    requires
        0 <= i < j < MAX_MARBLES,
    ensures
        start_cell(i) != start_cell(j),
{
}

/// The cast a roster spec asks for.
pub fn resolve_roster(spec: RosterSpec) -> (r: Result<Vec<MarbleConfig>, RosterError>)
    ensures
        match spec {
            RosterSpec::Default => exists|present: Seq<bool>|
                present.len() == 9 && #[trigger] is_cast_outcome(default_names(), present, r),
            RosterSpec::Characters(names) => if names.len() > MAX_MARBLES {
                r matches Err(RosterError::TooManyCharacters(n)) && n == names.len()
            } else {
                exists|present: Seq<bool>|
                    present.len() == names.len() && #[trigger] is_cast_outcome(
                        texts(names@),
                        present,
                        r,
                    )
            },
            RosterSpec::Slots(n) => {
                &&& (n == 0 || n > MAX_MARBLES) <==> r is Err
                &&& r matches Err(e) ==> e matches RosterError::SlotsOutOfRange(m) && m == n
                &&& r matches Ok(v) ==> v.len() == n && forall|i: int|
                    0 <= i < n ==> (#[trigger] v@[i]).nickname@ == slot_nickname(i as nat)
                        && v@[i].image is None
            },
        },
{
    match spec {
        RosterSpec::Default => build_roster(None),
        RosterSpec::Characters(names) => build_roster(Some(names)),
        RosterSpec::Slots(n) => slots_roster(n),
    }
}

} // verus!
