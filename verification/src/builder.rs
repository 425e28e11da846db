//! Building the date skeleton of the grid.
//!
//! The grid covers one year of whole weeks: consecutive calendar days
//! starting at an anchor Monday.  The anchor either derives from a caller
//! supplied origin date or from the current date, rolled back so the whole
//! grid lies in the past.
use vstd::prelude::*;

verus! {

use crate::consts::GRID_SIZE;
use crate::date::{Date, MAX_DAY, dec_chars, text_of_day};
use crate::state::{State, StateMap};
use vstd::string::StringExecFns;

/// A day number that can start the grid: a Monday, with the whole grid in
/// the supported range.
pub open spec fn is_anchor(a: int) -> bool {
    &&& 0 <= a
    &&& a % 7 == 0
    &&& a + GRID_SIZE <= MAX_DAY + 1
}

/// The cells' days are the consecutive day numbers starting at `a`.
pub open spec fn dates_from(cells: Seq<State>, a: int) -> bool {
    forall|i: int| 0 <= i < cells.len() ==> #[trigger] cells[i].0@ == a + i
}

/// Relies on chrono's `Local::now` and `Datelike::num_days_from_ce`: the
/// current local calendar date, counted in days from 0001-01-01 (that day
/// being 1).  chrono documents its dates as limited to years within
/// plus or minus 262143, which bounds the count.
#[verifier::external_body]
fn today_days_from_ce() -> (r: i64)
    ensures
        -96_000_000 < r < 96_000_000,
{
    chrono::Datelike::num_days_from_ce(&chrono::Local::now().date_naive()) as i64
}

/// Build the grid's date skeleton, all intensities zero.
///
/// With an origin date given, the anchor is the Monday on or before it.
/// Without one, the anchor derives from the current date moved back by the
/// grid's length, so that every cell lies in the past.
pub fn build_dates(origin: Option<Date>) -> (r: StateMap)
    requires
        origin is Some ==> origin.unwrap()@ + GRID_SIZE <= MAX_DAY + 1,
    ensures
        r@.len() == GRID_SIZE,
        forall|i: int| 0 <= i < r@.len() ==> #[trigger] r@[i].1 == 0,
        exists|a: int| #[trigger] is_anchor(a) && dates_from(r@, a),
        origin is Some ==> dates_from(r@, origin.unwrap()@ - origin.unwrap()@ % 7),
{
    let base: Date = match origin {
        Some(d) => d,
        None => {
            let t: i64 = today_days_from_ce();
            let shifted: i64 = t - 1 - GRID_SIZE as i64;
            let clamped: u64 = if shifted < 0 {
                0
            } else if shifted > (MAX_DAY - GRID_SIZE as u64) as i64 {
                MAX_DAY - GRID_SIZE as u64
            } else {
                shifted as u64
            };
            Date::from_day_number(clamped).unwrap()
        },
    };
    let anchor: Date = base.monday_on_or_before();
    let anchor_day: u64 = anchor.day_number();
    let mut v: Vec<State> = Vec::new();
    let mut i: usize = 0;
    while i < GRID_SIZE
        invariant
            i <= GRID_SIZE,
            v@.len() == i,
            anchor@ == anchor_day,
            anchor@ % 7 == 0,
            anchor@ + GRID_SIZE <= MAX_DAY + 1,
            forall|j: int| 0 <= j < v@.len() ==> #[trigger] v@[j].0@ == anchor@ + j,
            forall|j: int| 0 <= j < v@.len() ==> #[trigger] v@[j].1 == 0,
        decreases GRID_SIZE - i,
    {
        let d: Date = anchor.add_days(i as u64).unwrap();
        v.push(State(d, 0));
        i = i + 1;
    }
    proof {
        assert(is_anchor(anchor@));
        assert(dates_from(v@, anchor@));
    }
    StateMap(v)
}

/// The text a cell's intensity renders to: the full shade renders as a
/// letter, everything else as its decimal digits.
pub open spec fn txt_cell_text(n: u8) -> Seq<char> {
    if n == crate::consts::MAX_INTENSITY {
        seq!['A']
    } else {
        dec_chars(n as nat)
    }
}

/// The text grid over the first `upto` cells: one row of seven cells per
/// week, rows separated by a newline.
pub open spec fn txt_grid_spec(cells: Seq<State>, upto: int) -> Seq<char>
    decreases upto,
{
    if upto <= 0 {
        Seq::empty()
    } else {
        txt_grid_spec(cells, upto - 1) + (if (upto - 1) % 7 == 0 && upto != 1 {
            seq!['\n']
        } else {
            Seq::empty()
        }) + txt_cell_text(cells[upto - 1].1)
    }
}

/// Render the grid's intensities as the plain-text format: rows of seven
/// cells, the full shade written as a letter, newlines between rows.
pub fn generate_txt_grid(state: StateMap) -> (r: String)
    ensures
        r@ == txt_grid_spec(state@, state@.len() as int),
{
    let mut s: String = String::new();
    let mut i: usize = 0;
    while i < state.0.len()
        invariant
            i <= state@.len(),
            s@ == txt_grid_spec(state@, i as int),
        decreases state@.len() - i,
    {
        if i % 7 == 0 && i != 0 {
            s.append("\n");
        }
        let n: u8 = state.0[i].1;
        if n == crate::consts::MAX_INTENSITY {
            s.append("A");
        } else {
            crate::date::push_dec_chars(&mut s, n as u64);
        }
        proof {
            reveal_strlit("\n");
            reveal_strlit("A");
            assert("\n"@ =~= seq!['\n']);
            assert("A"@ =~= seq!['A']);
            assert(s@ =~= txt_grid_spec(state@, i + 1));
        }
        i = i + 1;
    }
    s
}

/// The JSON grid over the first `upto` cells: the opening bracket, then
/// the intensities in cell order, comma separated, with a newline before
/// every week's first cell.
pub open spec fn json_grid_spec(cells: Seq<State>, upto: int) -> Seq<char>
    decreases upto,
{
    if upto <= 0 {
        seq!['[']
    } else {
        json_grid_spec(cells, upto - 1) + (if (upto - 1) % 7 == 0 {
            seq!['\n']
        } else {
            Seq::empty()
        }) + dec_chars(cells[upto - 1].1 as nat) + (if upto < cells.len() {
            seq![',']
        } else {
            Seq::empty()
        })
    }
}

/// Render the grid's intensities as a JSON array in cell order.
pub fn generate_json_grid(state: StateMap) -> (r: String)
    ensures
        r@ == json_grid_spec(state@, state@.len() as int) + seq!['\n', ']'],
{
    let mut s: String = String::new();
    s.append("[");
    proof {
        reveal_strlit("[");
        assert("["@ =~= seq!['[']);
        assert(s@ =~= json_grid_spec(state@, 0));
    }
    let mut i: usize = 0;
    while i < state.0.len()
        invariant
            i <= state@.len(),
            s@ == json_grid_spec(state@, i as int),
        decreases state@.len() - i,
    {
        if i % 7 == 0 {
            s.append("\n");
        }
        crate::date::push_dec_chars(&mut s, state.0[i].1 as u64);
        if i + 1 < state.0.len() {
            s.append(",");
        }
        proof {
            reveal_strlit("\n");
            reveal_strlit(",");
            assert("\n"@ =~= seq!['\n']);
            assert(","@ =~= seq![',']);
            assert(s@ =~= json_grid_spec(state@, i + 1));
        }
        i = i + 1;
    }
    s.append("\n]");
    proof {
        reveal_strlit("\n]");
        assert("\n]"@ =~= seq!['\n', ']']);
        assert(s@ =~= json_grid_spec(state@, state@.len() as int) + seq!['\n', ']']);
    }
    s
}

/// The style sheet and document opening of the HTML rendering.
pub const HTML_HEADER: &'static str = r#"
<!DOCTYPE html>
<html>
<head>
  <style>
    body {
      background-color: white;
    }

    .filled100:hover .tooltip {
      display: block;
    }

    .filled90:hover .tooltip {
      display: block;
    }

    .filled80:hover .tooltip {
      display: block;
    }

    .filled70:hover .tooltip {
      display: block;
    }

    .filled60:hover .tooltip {
      display: block;
    }

    .filled50:hover .tooltip {
      display: block;
    }

    .filled40:hover .tooltip {
      display: block;
    }

    .filled30:hover .tooltip {
      display: block;
    }

    .filled20:hover .tooltip {
      display: block;
    }

    .filled10:hover .tooltip {
      display: block;
    }

    .empty:hover .tooltip {
      display: block;
    }

    .tooltip {
      display: none;
      background: #C8C8C8;
      margin-left: 28px;
      padding: 10px;
      position: absolute;
      z-index: 1000;
      width: auto;
      height: 1.5em;
    }

    .filled10 {
      border: 1px solid #A9A9A9;
      background-color: #A9A9A9;
      height: 10px;
      width: 10px;
    }

    .filled20 {
      border: 1px solid #989898;
      background-color: #989898;
      height: 10px;
      width: 10px;
    }

    .filled30 {
      border: 1px solid #878787;
      background-color: #878787;
      height: 10px;
      width: 10px;
    }

    .filled40 {
      border: 1px solid #767676;
      background-color: #767676;
      height: 10px;
      width: 10px;
    }

    .filled50 {
      border: 1px solid #656565;
      background-color: #656565;
      height: 10px;
      width: 10px;
    }

    .filled60 {
      border: 1px solid #545454;
      background-color: #545454;
      height: 10px;
      width: 10px;
    }

    .filled70 {
      border: 1px solid #434343;
      background-color: #434343;
      height: 10px;
      width: 10px;
    }

    .filled80 {
      border: 1px solid #323232;
      background-color: #323232;
      height: 10px;
      width: 10px;
    }

    .filled90 {
      border: 1px solid #212121;
      background-color: #212121;
      height: 10px;
      width: 10px;
    }

    .filled100 {
      border: 1px solid black;
      background-color: black;
      height: 10px;
      width: 10px;
    }

    .empty {
      border: 1px solid black;
      height: 10px;
      width: 10px;
    }
  </style>
</head>
  <body>
    <table>
        "#;

/// The document closing of the HTML rendering.
pub const HTML_FOOTER: &'static str = r"
        </table>
    </body>
</html>
        ";

/// The style class a cell's intensity renders to.
pub open spec fn shade_class_spec(n: u8) -> Seq<char> {
    if n == 10 {
        "filled100"@
    } else if n == 9 {
        "filled90"@
    } else if n == 8 {
        "filled80"@
    } else if n == 7 {
        "filled70"@
    } else if n == 6 {
        "filled60"@
    } else if n == 5 {
        "filled50"@
    } else if n == 4 {
        "filled40"@
    } else if n == 3 {
        "filled30"@
    } else if n == 2 {
        "filled20"@
    } else if n == 1 {
        "filled10"@
    } else {
        "empty"@
    }
}

/// The style class a cell's intensity renders to.
pub fn shade_class(n: u8) -> (r: &'static str)
    ensures
        r@ == shade_class_spec(n),
{
    if n == 10 {
        "filled100"
    } else if n == 9 {
        "filled90"
    } else if n == 8 {
        "filled80"
    } else if n == 7 {
        "filled70"
    } else if n == 6 {
        "filled60"
    } else if n == 5 {
        "filled50"
    } else if n == 4 {
        "filled40"
    } else if n == 3 {
        "filled30"
    } else if n == 2 {
        "filled20"
    } else if n == 1 {
        "filled10"
    } else {
        "empty"
    }
}

/// The table rows over the first `upto` cells: one row per week, one data
/// cell per day, its class from the intensity and its tooltip the date.
pub open spec fn html_cells_spec(cells: Seq<State>, upto: int) -> Seq<char>
    decreases upto,
{
    if upto <= 0 {
        Seq::empty()
    } else {
        html_cells_spec(cells, upto - 1) + (if (upto - 1) % 7 == 0 {
            "<tr>"@
        } else {
            Seq::empty()
        }) + "<td class=\""@ + shade_class_spec(cells[upto - 1].1)
            + "\"><span class=\"tooltip\">"@ + text_of_day(cells[upto - 1].0@) + "</span></td>"@
            + (if (upto - 1) % 7 == 6 {
            "</tr>"@
        } else {
            Seq::empty()
        })
    }
}

/// Render the grid as an HTML table: one row per week, one shaded cell
/// per day, each cell's tooltip holding its date.
pub fn build_grid(grid: StateMap) -> (r: String)
    ensures
        r@ == HTML_HEADER@ + html_cells_spec(grid@, grid@.len() as int) + HTML_FOOTER@,
{
    let mut s: String = HTML_HEADER.to_owned();
    let mut i: usize = 0;
    while i < grid.0.len()
        invariant
            i <= grid@.len(),
            s@ == HTML_HEADER@ + html_cells_spec(grid@, i as int),
        decreases grid@.len() - i,
    {
        if i % 7 == 0 {
            s.append("<tr>");
        }
        s.append("<td class=\"");
        s.append(shade_class(grid.0[i].1));
        s.append("\"><span class=\"tooltip\">");
        let t: String = grid.0[i].0.to_text();
        s.append(t.as_str());
        s.append("</span></td>");
        if i % 7 == 6 {
            s.append("</tr>");
        }
        proof {
            assert(s@ =~= HTML_HEADER@ + html_cells_spec(grid@, i + 1));
        }
        i = i + 1;
    }
    s.append(HTML_FOOTER);
    proof {
        assert(s@ =~= HTML_HEADER@ + html_cells_spec(grid@, grid@.len() as int) + HTML_FOOTER@);
    }
    s
}

/// The grid's dates strictly increase with the cell index, so no two cells
/// share a date, and the first cell's day is the anchor itself — a Monday.
pub proof fn lemma_grid_dates_strictly_increasing(cells: Seq<State>, a: int)
    requires
        dates_from(cells, a),
    ensures
        forall|i: int, j: int|
            0 <= i < j < cells.len() ==> #[trigger] cells[i].0@ < #[trigger] cells[j].0@,
        forall|i: int, j: int|
            0 <= i < cells.len() && 0 <= j < cells.len() && i != j
                ==> #[trigger] cells[i].0@ != #[trigger] cells[j].0@,
        cells.len() > 0 ==> cells[0].0@ == a,
{
}

} // verus!
