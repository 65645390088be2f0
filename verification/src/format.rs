//! Matrices drawn as text: one line for each row, between bars.

use crate::scalar::Token;
use crate::text::push_char;
use vstd::prelude::*;
use vstd::string::{StrSliceExecFns, StringExecFns};

verus! {

/// `n` spaces.
pub open spec fn spaces(n: nat) -> Seq<char> {
    Seq::new(n, |i: int| ' ')
}

/// The number of spaces after a cell of `used` characters that is not the
/// last of its row: one where nothing is aligned; with a `width`, as many more
/// as a cell that is no wider than `width` lacks to `width + 1`.
pub open spec fn gap(width: Option<nat>, used: nat) -> nat {
    match width {
        Some(w) if used <= w => (w + 2 - used) as nat,
        _ => 1,
    }
}

/// The texts of the elements of a matrix, column by column.
pub open spec fn texts(cells: Vec<Vec<String>>) -> Seq<Seq<Seq<char>>> {
    Seq::new(cells@.len(), |c: int| Seq::new(cells@[c]@.len(), |r: int| cells@[c]@[r]@))
}

/// The texts of the elements of `m`, column by column.
pub open spec fn element_texts<T: Token>(m: Seq<Seq<T>>) -> Seq<Seq<Seq<char>>> {
    Seq::new(m.len(), |c: int| Seq::new(m[c].len(), |r: int| m[c][r].text()))
}

/// The first `upto` cells of row `r`, each but the last of the row followed
/// by its gap.
pub open spec fn row_text(cells: Seq<Seq<Seq<char>>>, r: int, width: Option<nat>, upto: nat) -> Seq<char>
    decreases upto,
{
    if upto == 0 {
        Seq::empty()
    } else {
        let c = upto - 1;
        let before = row_text(cells, r, width, c as nat);
        if c == cells.len() - 1 {
            before + cells[c][r]
        } else {
            before + cells[c][r] + spaces(gap(width, cells[c][r].len()))
        }
    }
}

/// The first `upto` rows: each a bar, the cells of the row, a bar and the
/// end of the line.
pub open spec fn grid_text(cells: Seq<Seq<Seq<char>>>, width: Option<nat>, upto: nat) -> Seq<char>
    decreases upto,
{
    if upto == 0 {
        Seq::empty()
    } else {
        grid_text(cells, width, (upto - 1) as nat) + seq!['|'] + row_text(cells, upto - 1, width, cells.len())
            + seq!['|', '\n']
    }
}

/// Appends the gap after a cell of `used` characters.
fn push_gap(out: &mut String, width: Option<usize>, used: usize)
    ensures
        final(out)@ == old(out)@ + spaces(
            gap(
                match width {
                    Some(w) => Some(w as nat),
                    None => None,
                },
                used as nat,
            ),
        ),
{
    push_char(out, ' ');
    assert(out@ =~= old(out)@ + spaces(1));
    match width {
        Some(w) => {
            if used <= w {
                push_char(out, ' ');
                let mut k: usize = used;
                assert(out@ =~= old(out)@ + spaces((2 + k - used) as nat));
                while k < w
                    invariant
                        used <= k <= w,
                        out@ == old(out)@ + spaces((2 + k - used) as nat),
                    decreases w - k,
                {
                    push_char(out, ' ');
                    k += 1;
                    assert(out@ =~= old(out)@ + spaces((2 + k - used) as nat));
                }
            }
        },
        None => {},
    }
}

/// The text of a matrix of `rows` rows whose elements have the texts
/// `cells`, column by column.
pub fn render_grid(cells: &Vec<Vec<String>>, rows: usize, width: Option<usize>) -> (r: String)
    requires
        forall|c: int| 0 <= c < cells.len() ==> (#[trigger] cells[c]).len() == rows,
    ensures
        r@ == grid_text(
            texts(*cells),
            match width {
                Some(w) => Some(w as nat),
                None => None,
            },
            rows as nat,
        ),
{
    let ghost wide: Option<nat> = match width {
        Some(w) => Some(w as nat),
        None => None,
    };
    let mut out = String::new();
    let mut m: usize = 0;
    assert(out@ =~= grid_text(texts(*cells), wide, 0));
    while m < rows
        invariant
            m <= rows,
            forall|c: int| 0 <= c < cells.len() ==> (#[trigger] cells[c]).len() == rows,
            wide == (match width {
                Some(w) => Some(w as nat),
                None => None,
            }),
            out@ == grid_text(texts(*cells), wide, m as nat),
        decreases rows - m,
    {
        let ghost done = out@;
        push_char(&mut out, '|');
        let mut n: usize = 0;
        assert(out@ =~= done + seq!['|'] + row_text(texts(*cells), m as int, wide, 0));
        while n < cells.len()
            invariant
                n <= cells.len(),
                m < rows,
                forall|c: int| 0 <= c < cells.len() ==> (#[trigger] cells[c]).len() == rows,
                wide == (match width {
                    Some(w) => Some(w as nat),
                    None => None,
                }),
                out@ == done + seq!['|'] + row_text(texts(*cells), m as int, wide, n as nat),
            decreases cells.len() - n,
        {
            let cell = cells[n][m].as_str();
            let ghost before = out@;
            assert(texts(*cells)[n as int][m as int] == cell@);
            out.append(cell);
            if n != cells.len() - 1 {
                let used = cell.unicode_len();
                push_gap(&mut out, width, used);
                assert(out@ =~= done + seq!['|'] + (row_text(texts(*cells), m as int, wide, n as nat) + cell@
                    + spaces(gap(wide, cell@.len()))));
            } else {
                assert(out@ =~= done + seq!['|'] + (row_text(texts(*cells), m as int, wide, n as nat) + cell@));
            }
            n += 1;
        }
        push_char(&mut out, '|');
        push_char(&mut out, '\n');
        assert(out@ =~= done + seq!['|'] + row_text(texts(*cells), m as int, wide, cells.len() as nat) + seq![
            '|',
            '\n',
        ]);
        m += 1;
    }
    out
}

} // verus!
