//! Intensity matrices: decoding them and applying them to the grid.
use vstd::prelude::*;

verus! {

use crate::builder::{build_dates, dates_from, is_anchor};
use vstd::string::StringSliceAdditionalSpecFns;
use vstd::string::StrSliceExecFns;
use crate::consts::GRID_SIZE;
use crate::date::{Date, MAX_DAY};
use crate::state::{State, StateMap};

/// Everything that can go wrong while building or replaying a grid.
#[derive(Clone, Copy, Debug, PartialEq, Eq, Structural)]
pub enum GridError {
    /// An intensity source whose length is not the grid's length.
    SizeMismatch,
    /// Synthesis attempted before a repository was bound.
    NoRepository,
    /// The repository could not be created at the given path.
    RepositoryInitFailure,
    /// The repository could not be opened at the given path.
    RepositoryOpenFailure,
    /// A tree or commit object could not be persisted.
    ObjectWriteFailure,
    /// The font resource could not be parsed.
    GlyphLoadError,
    /// The rendered message does not fit into the grid.
    DoesNotFit,
}

impl GridError {
    /// A human-readable description of the error.
    pub fn message(&self) -> (s: String)
        ensures
            s@ == self.message_spec(),
    {
        match self {
            GridError::SizeMismatch => "intensity matrix size must equal the grid size".to_owned(),
            GridError::NoRepository => "no repository provided".to_owned(),
            GridError::RepositoryInitFailure => "cannot initialize repository".to_owned(),
            GridError::RepositoryOpenFailure => "cannot open repository".to_owned(),
            GridError::ObjectWriteFailure => "cannot write repository object".to_owned(),
            GridError::GlyphLoadError => "cannot load font".to_owned(),
            GridError::DoesNotFit => "cannot fit into grid".to_owned(),
        }
    }

    pub open spec fn message_spec(&self) -> Seq<char> {
        match self {
            GridError::SizeMismatch => "intensity matrix size must equal the grid size"@,
            GridError::NoRepository => "no repository provided"@,
            GridError::RepositoryInitFailure => "cannot initialize repository"@,
            GridError::RepositoryOpenFailure => "cannot open repository"@,
            GridError::ObjectWriteFailure => "cannot write repository object"@,
            GridError::GlyphLoadError => "cannot load font"@,
            GridError::DoesNotFit => "cannot fit into grid"@,
        }
    }
}

/// The two on-disk intensity matrix formats.
#[derive(Clone, Copy, Debug, PartialEq, Eq, Structural)]
pub enum ConfigFormat {
    Json,
    Txt,
}

/// An ASCII uppercase letter taken to lowercase; any other character is
/// itself.
pub open spec fn lower_char(c: char) -> char {
    if 65 <= c as u32 && c as u32 <= 90 {
        (((c as u32) + 32) as u8) as char
    } else {
        c
    }
}

/// Whether two texts are equal once ASCII letter case is ignored.
pub open spec fn matches_ignore_ascii_case(s: Seq<char>, t: Seq<char>) -> bool {
    &&& s.len() == t.len()
    &&& forall|i: int| 0 <= i < s.len() ==> #[trigger] lower_char(s[i]) == lower_char(t[i])
}

fn lower_char_x(c: char) -> (r: char)
    ensures
        r == lower_char(c),
{
    let v: u32 = c as u32;
    if 65 <= v && v <= 90 {
        ((v + 32) as u8) as char
    } else {
        c
    }
}

fn eq_ignore_ascii_case_x(a: &str, b: &str) -> (r: bool)
    ensures
        r == matches_ignore_ascii_case(a@, b@),
{
    let la: usize = a.unicode_len();
    let lb: usize = b.unicode_len();
    if la != lb {
        return false;
    }
    let mut i: usize = 0;
    while i < la
        invariant
            la == a@.len(),
            lb == b@.len(),
            la == lb,
            i <= la,
            forall|j: int| 0 <= j < i ==> #[trigger] lower_char(a@[j]) == lower_char(b@[j]),
        decreases la - i,
    {
        let ca: char = a.get_char(i);
        let cb: char = b.get_char(i);
        if lower_char_x(ca) != lower_char_x(cb) {
            return false;
        }
        i = i + 1;
    }
    true
}

/// The format a file extension selects, ASCII letter case ignored;
/// anything but the two known extensions selects nothing.
pub fn format_for_extension(ext: &str) -> (r: Option<ConfigFormat>)
    ensures
        r == Some(ConfigFormat::Json) <==> matches_ignore_ascii_case(ext@, "json"@),
        r == Some(ConfigFormat::Txt) <==> matches_ignore_ascii_case(ext@, "txt"@),
        r is None <==> !matches_ignore_ascii_case(ext@, "json"@) && !matches_ignore_ascii_case(
            ext@,
            "txt"@,
        ),
{
    proof {
        reveal_strlit("json");
        reveal_strlit("txt");
    }
    if eq_ignore_ascii_case_x(ext, "json") {
        Some(ConfigFormat::Json)
    } else if eq_ignore_ascii_case_x(ext, "txt") {
        Some(ConfigFormat::Txt)
    } else {
        None
    }
}

/// The intensity a text-format byte stands for: `a` or `A` is full
/// intensity, a digit is itself, anything else is zero.
pub open spec fn txt_cell_value(b: u8) -> u8 {
    if b == 97 || b == 65 {
        crate::consts::MAX_INTENSITY
    } else if 49 <= b <= 57 {
        (b - 48) as u8
    } else {
        0
    }
}

/// The intensities a text-format matrix decodes to: newline bytes are
/// skipped, every other byte maps through `txt_cell_value`.
pub open spec fn txt_decode(s: Seq<u8>) -> Seq<u8>
    decreases s.len(),
{
    if s.len() == 0 {
        Seq::empty()
    } else if s.last() == 10 {
        txt_decode(s.drop_last())
    } else {
        txt_decode(s.drop_last()).push(txt_cell_value(s.last()))
    }
}

/// What `serde_json` parses a text as, when it is a JSON array of
/// integers that fit in a byte.
pub uninterp spec fn json_intensities(s: Seq<char>) -> Option<Seq<u8>>;

/// Relies on serde_json's `from_str` for `Vec<u8>`: parses a JSON array
/// of integers in 0..=255; the result depends on the text alone.
#[verifier::external_body]
fn parse_intensity_json(text: &str) -> (r: Option<Vec<u8>>)
    ensures
        r is Some <==> json_intensities(text@) is Some,
        r is Some ==> r.unwrap()@ == json_intensities(text@).unwrap(),
{
    serde_json::from_str::<Vec<u8>>(text).ok()
}

/// An intensity matrix: one value per prospective grid cell.
#[derive(Clone, Debug)]
pub struct Config(pub Vec<u8>);

impl Config {
    /// Decode a text-format matrix: newlines are ignored, `a`/`A` is full
    /// intensity, digits are themselves, anything else is zero.
    pub fn from_txt(text: &str) -> (r: Config)
        ensures
            r.0@ == txt_decode(text.spec_bytes()),
    {
        let bytes: &[u8] = text.as_bytes();
        let mut v: Vec<u8> = Vec::new();
        let mut i: usize = 0;
        while i < bytes.len()
            invariant
                i <= bytes@.len(),
                v@ == txt_decode(bytes@.take(i as int)),
            decreases bytes@.len() - i,
        {
            let b: u8 = bytes[i];
            if b != 10 {
                v.push(txt_cell_value_x(b));
            }
            proof {
                assert(bytes@.take(i + 1).drop_last() =~= bytes@.take(i as int));
                assert(bytes@.take(i + 1).last() == bytes@[i as int]);
            }
            i = i + 1;
        }
        proof {
            assert(bytes@.take(bytes@.len() as int) =~= bytes@);
        }
        Config(v)
    }

    /// Decode a JSON-format matrix: an array of integers that fit a byte.
    pub fn from_json(text: &str) -> (r: Option<Config>)
        ensures
            r is Some <==> json_intensities(text@) is Some,
            r is Some ==> r.unwrap().0@ == json_intensities(text@).unwrap(),
    {
        match parse_intensity_json(text) {
            Some(v) => Some(Config(v)),
            None => None,
        }
    }

    /// The matrix fits the grid exactly; anything else is a size mismatch.
    pub fn valid(&self) -> (r: Result<(), GridError>)
        ensures
            r is Ok <==> self.0@.len() == GRID_SIZE,
            r is Err ==> r->Err_0 == GridError::SizeMismatch,
    {
        if self.0.len() == GRID_SIZE {
            Ok(())
        } else {
            Err(GridError::SizeMismatch)
        }
    }

    /// Apply this matrix to a freshly built date skeleton.
    ///
    /// Fails with a size mismatch exactly when the matrix's length is not
    /// the grid's length; otherwise every cell keeps its skeleton date and
    /// takes its intensity from the matrix, positionally.
    pub fn to_grid(&self, origin: Option<Date>) -> (r: Result<StateMap, GridError>)
        requires
            origin is Some ==> origin.unwrap()@ + GRID_SIZE <= MAX_DAY + 1,
        ensures
            r is Ok <==> self.0@.len() == GRID_SIZE,
            r is Err ==> r->Err_0 == GridError::SizeMismatch,
            r is Ok ==> applied(r.unwrap()@, self.0@),
            r is Ok ==> exists|a: int| #[trigger] is_anchor(a) && dates_from(r.unwrap()@, a),
            r is Ok && origin is Some ==> dates_from(
                r.unwrap()@,
                origin.unwrap()@ - origin.unwrap()@ % 7,
            ),
    {
        self.valid()?;
        let dates: StateMap = build_dates(origin);
        let mut v: Vec<State> = Vec::new();
        let mut i: usize = 0;
        while i < GRID_SIZE
            invariant
                i <= GRID_SIZE,
                v@.len() == i,
                self.0@.len() == GRID_SIZE,
                dates@.len() == GRID_SIZE,
                forall|j: int| 0 <= j < v@.len() ==> #[trigger] v@[j].0 == dates@[j].0,
                forall|j: int| 0 <= j < v@.len() ==> #[trigger] v@[j].1 == self.0@[j],
            decreases GRID_SIZE - i,
        {
            let d: State = dates.0[i];
            v.push(State(d.0, self.0[i]));
            i = i + 1;
        }
        proof {
            let a: int = choose|a: int| #[trigger] is_anchor(a) && dates_from(dates@, a);
            assert forall|j: int| 0 <= j < v@.len() implies #[trigger] v@[j].0@ == a + j by {
                assert(dates@[j].0@ == a + j);
            }
            assert(dates_from(v@, a));
            if origin is Some {
                let a2: int = origin.unwrap()@ - origin.unwrap()@ % 7;
                assert forall|j: int| 0 <= j < v@.len() implies #[trigger] v@[j].0@ == a2
                    + j by {
                    assert(dates@[j].0@ == a2 + j);
                }
                assert(dates_from(v@, a2));
            }
        }
        Ok(StateMap(v))
    }
}

/// The cells' intensities are exactly the matrix's values, positionally.
pub open spec fn applied(cells: Seq<State>, matrix: Seq<u8>) -> bool {
    &&& cells.len() == matrix.len()
    &&& forall|i: int| 0 <= i < cells.len() ==> #[trigger] cells[i].1 == matrix[i]
}

/// Applying a matrix is a pure function of the matrix and the date
/// skeleton: two applications with the same matrix to grids carrying the
/// same dates give identical grids.  In particular, applying a matrix
/// twice changes nothing after the first application.
pub proof fn lemma_apply_intensities_deterministic(
    g1: Seq<State>,
    g2: Seq<State>,
    matrix: Seq<u8>,
    a: int,
)
    requires
        dates_from(g1, a),
        dates_from(g2, a),
        applied(g1, matrix),
        applied(g2, matrix),
    ensures
        g1 == g2,
{
    assert forall|i: int| 0 <= i < g1.len() implies g1[i] == g2[i] by {
        assert(g1[i].0@ == a + i);
        assert(g2[i].0@ == a + i);
        crate::date::lemma_date_view_injective(g1[i].0, g2[i].0);
        assert(g1[i].1 == matrix[i]);
        assert(g2[i].1 == matrix[i]);
        assert(g1[i] == State(g1[i].0, g1[i].1));
        assert(g2[i] == State(g2[i].0, g2[i].1));
    }
    assert(g1 =~= g2);
}

/// The intensity an exec byte decodes to.
pub fn txt_cell_value_x(b: u8) -> (r: u8)
    ensures
        r == txt_cell_value(b),
{
    if b == 97 || b == 65 {
        crate::consts::MAX_INTENSITY
    } else if 49 <= b && b <= 57 {
        b - 48
    } else {
        0
    }
}

} // verus!
