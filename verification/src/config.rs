//! Turning command-line arguments into the parameters of a game.

use crate::grid::contains_point;
use crate::text::{
    decimal_value, is_digit, parse_u8, parse_usize, u8_of, u8_parse_error, unsigned_part,
    usize_of, usize_parse_error,
};
use std::num::ParseIntError;
use vstd::prelude::*;
use vstd::std_specs::convert::FromSpecImpl;
use vstd::string::*;

verus! {

/// What building a configuration yields.
pub type ConfigResult<T> = std::result::Result<T, ConfigError>;

/// Why a list of arguments could not be turned into a [`Config`].
#[derive(Debug)]
pub enum ConfigError {
    /// The width, the height or the cycle count is not a number of its type.
    ArgsParsingError(ParseIntError),
    StartingSizeMissing,
    CycleCountMissing,
    TooFewStartingPoints,
    StartingPointsParsingError,
}

impl Clone for ConfigError {
    fn clone(&self) -> (copy: Self)
        ensures
            copy == *self,
    {
        match self {
            ConfigError::ArgsParsingError(error) => ConfigError::ArgsParsingError(error.clone()),
            ConfigError::StartingSizeMissing => ConfigError::StartingSizeMissing,
            ConfigError::CycleCountMissing => ConfigError::CycleCountMissing,
            ConfigError::TooFewStartingPoints => ConfigError::TooFewStartingPoints,
            ConfigError::StartingPointsParsingError => ConfigError::StartingPointsParsingError,
        }
    }
}

impl From<ParseIntError> for ConfigError {
    fn from(err: ParseIntError) -> (error: Self) {
        ConfigError::ArgsParsingError(err)
    }
}

impl FromSpecImpl<ParseIntError> for ConfigError {
    open spec fn obeys_from_spec() -> bool {
        true
    }

    open spec fn from_spec(err: ParseIntError) -> Self {
        ConfigError::ArgsParsingError(err)
    }
}

impl ConfigError {
    /// The sentence that tells a user what went wrong.
    pub fn message(&self) -> (text: String)
        ensures
            self is StartingSizeMissing ==> text@ == "No starting size provided."@,
            self is CycleCountMissing ==> text@ == "No cycle count provided."@,
            self is TooFewStartingPoints ==> text@ == "Not enough starting points provided."@,
            self is StartingPointsParsingError ==> text@ == "Cannot parse starting points"@,
            self matches ConfigError::ArgsParsingError(error) ==> exists|detail: String|
                (#[trigger] to_string_from_display_ensures::<ParseIntError>(&error, detail))
                    && text@ == "Could not parse arguments: "@ + detail@,
    {
        match self {
            ConfigError::ArgsParsingError(parse_int_error) => {
                let detail = parse_int_error.to_string();
                String::from_str("Could not parse arguments: ").concat(detail.as_str())
            },
            ConfigError::StartingSizeMissing => String::from_str("No starting size provided."),
            ConfigError::CycleCountMissing => String::from_str("No cycle count provided."),
            ConfigError::TooFewStartingPoints => String::from_str(
                "Not enough starting points provided.",
            ),
            ConfigError::StartingPointsParsingError => String::from_str(
                "Cannot parse starting points",
            ),
        }
    }
}

/// The point that `text` denotes, if it has the form `x,y`: a comma with a
/// byte-sized decimal numeral on either side, and nothing else.
pub open spec fn point_of(text: Seq<char>) -> Option<(u8, u8)> {
    match text.index_of_first(',') {
        Some(comma) => match (
            u8_of(text.subrange(0, comma)),
            u8_of(text.subrange(comma + 1, text.len() as int)),
        ) {
            (Some(x), Some(y)) => Some((x, y)),
            _ => None,
        },
        None => None,
    }
}

/// A decimal numeral holds no comma.
proof fn lemma_numeral_has_no_comma(text: Seq<char>, i: int)
    requires
        decimal_value(text) is Some,
        0 <= i < text.len(),
    ensures
        text[i] != ',',
{
    let digits = unsigned_part(text);
    if text[0] == '+' {
        if i > 0 {
            assert(is_digit(digits[i - 1]));
        }
    } else {
        assert(is_digit(digits[i]));
    }
}

/// Text that denotes a point holds exactly one comma: split at its commas it
/// falls into two parts, the two numerals.
pub proof fn lemma_point_has_one_comma(text: Seq<char>)
    requires
        point_of(text) is Some,
    ensures
        exists|comma: int|
            {
                &&& 0 <= comma < text.len()
                &&& #[trigger] text[comma] == ','
                &&& forall|i: int| 0 <= i < text.len() && i != comma ==> text[i] != ','
                &&& point_of(text) == Some(
                    (
                        u8_of(text.subrange(0, comma)).unwrap(),
                        u8_of(text.subrange(comma + 1, text.len() as int)).unwrap(),
                    ),
                )
            },
{
    text.index_of_first_ensures(',');
    let comma = text.index_of_first(',').unwrap();
    let left = text.subrange(0, comma);
    let right = text.subrange(comma + 1, text.len() as int);
    assert forall|i: int| 0 <= i < text.len() && i != comma implies text[i] != ',' by {
        if i < comma {
            assert(left[i] == text[i]);
            lemma_numeral_has_no_comma(left, i);
        } else {
            assert(right[i - comma - 1] == text[i]);
            lemma_numeral_has_no_comma(right, i - comma - 1);
        }
    }
    assert(text[comma] == ',');
}

/// The points in their order, without those that occurred before.
pub open spec fn first_occurrences(points: Seq<(u8, u8)>) -> Seq<(u8, u8)>
    decreases points.len(),
{
    if points.len() == 0 {
        Seq::empty()
    } else {
        let kept = first_occurrences(points.drop_last());
        if kept.contains(points.last()) {
            kept
        } else {
            kept.push(points.last())
        }
    }
}

/// Whether `p` stands in `points` before `q` stands there for the first time.
pub open spec fn occurs_before(points: Seq<(u8, u8)>, p: (u8, u8), q: (u8, u8)) -> bool {
    exists|at: int|
        0 <= at < points.len() && #[trigger] points[at] == p && !points.take(at + 1).contains(q)
}

/// Keeping the first occurrences keeps their order: of two kept points, the
/// earlier one stands in `points` before the later one stands there at all.
pub proof fn lemma_first_occurrences_in_order(points: Seq<(u8, u8)>, i: int, j: int)
    requires
        0 <= i < j < first_occurrences(points).len(),
    ensures
        occurs_before(points, first_occurrences(points)[i], first_occurrences(points)[j]),
    decreases points.len(),
{
    assert(points.len() > 0);
    let earlier = points.drop_last();
    let kept = first_occurrences(earlier);
    let p = first_occurrences(points)[i];
    let q = first_occurrences(points)[j];
    lemma_first_occurrences(earlier);
    assert(kept[i] == p);
    if j < kept.len() {
        assert(kept[j] == q);
        lemma_first_occurrences_in_order(earlier, i, j);
        let at = choose|at: int|
            0 <= at < earlier.len() && #[trigger] earlier[at] == p && !earlier.take(
                at + 1,
            ).contains(q);
        assert(points.take(at + 1) =~= earlier.take(at + 1));
        assert(points[at] == p);
    } else {
        assert(q == points.last());
        assert(!kept.contains(q));
        assert(kept.contains(p));
        assert(earlier.contains(p));
        let at = choose|at: int| 0 <= at < earlier.len() && earlier[at] == p;
        assert(points[at] == p);
        let head = points.take(at + 1);
        if head.contains(q) {
            let b = choose|b: int| 0 <= b < head.len() && head[b] == q;
            assert(earlier[b] == q);
            assert(earlier.contains(q));
        }
    }
}

/// Keeping the first occurrences loses no point, adds none and leaves none
/// twice; a sequence without repetitions stays as it is.
pub proof fn lemma_first_occurrences(points: Seq<(u8, u8)>)
    ensures
        first_occurrences(points).no_duplicates(),
        forall|p: (u8, u8)| first_occurrences(points).contains(p) <==> points.contains(p),
        first_occurrences(points).len() <= points.len(),
        points.no_duplicates() ==> first_occurrences(points) == points,
    decreases points.len(),
{
    if points.len() > 0 {
        let earlier = points.drop_last();
        let kept = first_occurrences(earlier);
        lemma_first_occurrences(earlier);
        assert forall|p: (u8, u8)| first_occurrences(points).contains(p) <==> points.contains(
            p,
        ) by {
            if points.contains(p) {
                let i = choose|i: int| 0 <= i < points.len() && points[i] == p;
                if i < points.len() - 1 {
                    assert(earlier[i] == p);
                }
            }
            if earlier.contains(p) {
                let i = choose|i: int| 0 <= i < earlier.len() && earlier[i] == p;
                assert(points[i] == p);
            }
            if !kept.contains(points.last()) {
                assert(kept.push(points.last()).last() == points.last());
                if kept.contains(p) {
                    let i = choose|i: int| 0 <= i < kept.len() && kept[i] == p;
                    assert(kept.push(points.last())[i] == p);
                }
            }
        }
        if points.no_duplicates() {
            assert(earlier.no_duplicates());
            assert(!earlier.contains(points.last()));
            assert(kept.push(points.last()) =~= points);
        }
    }
}

/// Whether the first three arguments are a width, a height and a cycle count.
pub open spec fn header_parses(args: Seq<String>) -> bool {
    u8_of(args[0]@) is Some && u8_of(args[1]@) is Some && usize_of(args[2]@) is Some
}

/// The error of the first of the three numbers that does not parse.
pub open spec fn header_error(args: Seq<String>) -> ParseIntError {
    if u8_of(args[0]@) is None {
        u8_parse_error(args[0]@)
    } else if u8_of(args[1]@) is None {
        u8_parse_error(args[1]@)
    } else {
        usize_parse_error(args[2]@)
    }
}

/// Whether every argument after the third denotes a point.
pub open spec fn points_parse(args: Seq<String>) -> bool {
    forall|i: int| 3 <= i < args.len() ==> point_of(#[trigger] args[i]@) is Some
}

/// The points that the arguments after the third denote, in their order.
pub open spec fn points_of(args: Seq<String>) -> Seq<(u8, u8)> {
    Seq::new((args.len() - 3) as nat, |k: int| point_of(args[k + 3]@).unwrap())
}

/// Where the first comma of `text` stands, counted in characters.
fn first_comma(text: &str) -> (at: Option<usize>)
    ensures
        at is Some <==> text@.index_of_first(',') is Some,
        at matches Some(i) ==> text@.index_of_first(',') == Some(i as int) && i < text@.len(),
{
    proof {
        text@.index_of_first_ensures(',');
    }
    let len = text.unicode_len();
    let mut i: usize = 0;
    for c in chars: text.chars()
        invariant
            i == chars.index(),
            chars.seq() == text@,
            len == text@.len(),
            forall|k: int| 0 <= k < i ==> text@[k] != ',',
    {
        if c == ',' {
            proof {
                assert(text@[i as int] == ',');
                text@.index_of_first_ensures(',');
            }
            return Some(i);
        }
        i += 1;
    }
    None
}

/// Reads a point written as `x,y`.
pub fn parse_point(text: &str) -> (point: Option<(u8, u8)>)
    ensures
        point == point_of(text@),
{
    let comma = match first_comma(text) {
        Some(comma) => comma,
        None => {
            return None;
        },
    };
    let len = text.unicode_len();
    let x = parse_u8(text.substring_char(0, comma));
    let y = parse_u8(text.substring_char(comma + 1, len));
    match (x, y) {
        (Ok(x), Ok(y)) => Some((x, y)),
        _ => None,
    }
}

/// The parameters of a game: the size of the grid, how long to run, and the
/// cells that start alive.
pub struct Config {
    grid_width: u8,
    grid_height: u8,
    /// The number of cycles to complete, or `0` to run indefinitely
    cycle_count: usize,
    /// The coordinates of the cells that start alive, each once
    starting_cells: Vec<(u8, u8)>,
}

impl Config {
    /// The number of columns.
    pub closed spec fn grid_width(&self) -> u8 {
        self.grid_width
    }

    /// The number of rows.
    pub closed spec fn grid_height(&self) -> u8 {
        self.grid_height
    }

    /// The number of cycles to complete, or `0` to run indefinitely.
    pub closed spec fn cycle_count(&self) -> usize {
        self.cycle_count
    }

    /// The cells that start alive, each once.
    pub closed spec fn starting_cells(&self) -> Seq<(u8, u8)> {
        self.starting_cells@
    }

    /// Builds the configuration from its arguments: the grid's width, its
    /// height, the cycle count (`0` to run indefinitely), and then at least
    /// three starting points, each written `x,y`, where `0,0` is the
    /// bottom-left cell. A point that is given twice counts once.
    ///
    /// The checks come in this order: the number of arguments, then the three
    /// numbers, then the points.
    pub fn build(args: Vec<String>) -> (built: Result<Self, ConfigError>)
        ensures
            built matches Err(ConfigError::StartingSizeMissing) <==> args@.len() < 2,
            built matches Err(ConfigError::CycleCountMissing) <==> args@.len() == 2,
            built matches Err(ConfigError::TooFewStartingPoints) <==> 3 <= args@.len() < 6,
            built matches Err(ConfigError::ArgsParsingError(_)) <==> 6 <= args@.len()
                && !header_parses(args@),
            built matches Err(ConfigError::ArgsParsingError(error)) ==> error == header_error(
                args@,
            ),
            built matches Err(ConfigError::StartingPointsParsingError) <==> 6 <= args@.len()
                && header_parses(args@) && !points_parse(args@),
            built matches Ok(config) ==> {
                &&& Some(config.grid_width()) == u8_of(args@[0]@)
                &&& Some(config.grid_height()) == u8_of(args@[1]@)
                &&& Some(config.cycle_count()) == usize_of(args@[2]@)
                &&& config.starting_cells() == first_occurrences(points_of(args@))
                &&& config.starting_cells().no_duplicates()
            },
    {
        if args.len() < 2 {
            return Err(ConfigError::StartingSizeMissing);
        } else if args.len() < 3 {
            return Err(ConfigError::CycleCountMissing);
        } else if args.len() < 6 {
            return Err(ConfigError::TooFewStartingPoints);
        }
        let grid_width = match parse_u8(args[0].as_str()) {
            Ok(value) => value,
            Err(error) => {
                return Err(ConfigError::from(error));
            },
        };
        let grid_height = match parse_u8(args[1].as_str()) {
            Ok(value) => value,
            Err(error) => {
                return Err(ConfigError::from(error));
            },
        };
        let cycle_count = match parse_usize(args[2].as_str()) {
            Ok(value) => value,
            Err(error) => {
                return Err(ConfigError::from(error));
            },
        };
        let mut starting_cells: Vec<(u8, u8)> = Vec::new();
        let mut i: usize = 3;
        while i < args.len()
            invariant
                6 <= args.len(),
                header_parses(args@),
                3 <= i <= args.len(),
                forall|k: int| 3 <= k < i ==> point_of(#[trigger] args@[k]@) is Some,
                starting_cells@ == first_occurrences(points_of(args@).take(i - 3)),
            decreases args.len() - i,
        {
            let (x, y) = match parse_point(args[i].as_str()) {
                Some(point) => point,
                None => {
                    return Err(ConfigError::StartingPointsParsingError);
                },
            };
            proof {
                let points = points_of(args@);
                assert(points.take(i - 2).drop_last() =~= points.take(i - 3));
                assert(points.take(i - 2).last() == (x, y));
            }
            if !contains_point(&starting_cells, x, y) {
                starting_cells.push((x, y));
            }
            i = i + 1;
        }
        proof {
            assert(points_of(args@).take(args@.len() - 3) =~= points_of(args@));
            lemma_first_occurrences(points_of(args@));
        }
        Ok(Self { grid_width, grid_height, cycle_count, starting_cells })
    }

    /// The width of the grid, in cells.
    pub fn get_x(&self) -> (width: u8)
        ensures
            width == self.grid_width(),
    {
        self.grid_width
    }

    /// The height of the grid, in cells.
    pub fn get_y(&self) -> (height: u8)
        ensures
            height == self.grid_height(),
    {
        self.grid_height
    }

    /// A copy of the cells that start alive.
    pub fn get_starting_cells(&self) -> (cells: Vec<(u8, u8)>)
        ensures
            cells@ == self.starting_cells(),
    {
        let mut cells: Vec<(u8, u8)> = Vec::new();
        let mut i: usize = 0;
        while i < self.starting_cells.len()
            invariant
                i <= self.starting_cells.len(),
                cells@ == self.starting_cells@.take(i as int),
            decreases self.starting_cells.len() - i,
        {
            cells.push(self.starting_cells[i]);
            proof {
                assert(cells@ =~= self.starting_cells@.take(i + 1));
            }
            i = i + 1;
        }
        proof {
            assert(self.starting_cells@.take(self.starting_cells.len() as int)
                =~= self.starting_cells@);
        }
        cells
    }

    /// The number of cycles to complete, or `0` to run indefinitely.
    pub fn get_cycle_count(&self) -> (cycles: usize)
        ensures
            cycles == self.cycle_count(),
    {
        self.cycle_count
    }
}

} // verus!
