//! The position-string codec: one line, rows separated by `/`, a run of
//! empty cells written as its length, one letter per piece (uppercase
//! for the first role), then a space and `w` or `b` for the side to
//! move. `lemma_fen_round_trip` shows that parsing what was rendered
//! gives back exactly the grid and side.

use vstd::prelude::*;
use crate::chess::{ChessId, ChessKind, RoleType};

verus! {

/// The piece a letter denotes, if any.
pub open spec fn char_piece(c: char) -> Option<ChessId> {
    match c {
        'e' => Some(ChessId { role: RoleType::BLACK, kind: ChessKind::ELEPHANT }),
        'l' => Some(ChessId { role: RoleType::BLACK, kind: ChessKind::LION }),
        't' => Some(ChessId { role: RoleType::BLACK, kind: ChessKind::TIGER }),
        'p' => Some(ChessId { role: RoleType::BLACK, kind: ChessKind::PANTHER }),
        'w' => Some(ChessId { role: RoleType::BLACK, kind: ChessKind::WOLF }),
        'd' => Some(ChessId { role: RoleType::BLACK, kind: ChessKind::DOG }),
        'c' => Some(ChessId { role: RoleType::BLACK, kind: ChessKind::CAT }),
        'r' => Some(ChessId { role: RoleType::BLACK, kind: ChessKind::RAT }),
        'E' => Some(ChessId { role: RoleType::RED, kind: ChessKind::ELEPHANT }),
        'L' => Some(ChessId { role: RoleType::RED, kind: ChessKind::LION }),
        'T' => Some(ChessId { role: RoleType::RED, kind: ChessKind::TIGER }),
        'P' => Some(ChessId { role: RoleType::RED, kind: ChessKind::PANTHER }),
        'W' => Some(ChessId { role: RoleType::RED, kind: ChessKind::WOLF }),
        'D' => Some(ChessId { role: RoleType::RED, kind: ChessKind::DOG }),
        'C' => Some(ChessId { role: RoleType::RED, kind: ChessKind::CAT }),
        'R' => Some(ChessId { role: RoleType::RED, kind: ChessKind::RAT }),
        _ => None,
    }
}

/// The letter of a piece.
pub open spec fn piece_char(p: ChessId) -> char {
    match p.role {
        RoleType::BLACK => match p.kind {
            ChessKind::ELEPHANT => 'e',
            ChessKind::LION => 'l',
            ChessKind::TIGER => 't',
            ChessKind::PANTHER => 'p',
            ChessKind::WOLF => 'w',
            ChessKind::DOG => 'd',
            ChessKind::CAT => 'c',
            ChessKind::RAT => 'r',
        },
        RoleType::RED => match p.kind {
            ChessKind::ELEPHANT => 'E',
            ChessKind::LION => 'L',
            ChessKind::TIGER => 'T',
            ChessKind::PANTHER => 'P',
            ChessKind::WOLF => 'W',
            ChessKind::DOG => 'D',
            ChessKind::CAT => 'C',
            ChessKind::RAT => 'R',
        },
    }
}

/// Value of a digit character, 0 for anything else.
pub open spec fn digit_val(c: char) -> int {
    match c {
        '1' => 1,
        '2' => 2,
        '3' => 3,
        '4' => 4,
        '5' => 5,
        '6' => 6,
        '7' => 7,
        '8' => 8,
        '9' => 9,
        _ => 0,
    }
}

pub open spec fn is_digit(c: char) -> bool {
    digit_val(c) >= 1
}

/// Digit character of a run length 1..=9.
pub open spec fn digit_char(n: int) -> char {
    if n == 1 {
        '1'
    } else if n == 2 {
        '2'
    } else if n == 3 {
        '3'
    } else if n == 4 {
        '4'
    } else if n == 5 {
        '5'
    } else if n == 6 {
        '6'
    } else if n == 7 {
        '7'
    } else if n == 8 {
        '8'
    } else {
        '9'
    }
}

pub open spec fn side_char(role: RoleType) -> char {
    match role {
        RoleType::RED => 'w',
        RoleType::BLACK => 'b',
    }
}

/// Pad or cut the parsed cells to the 63 cells of the grid.
pub open spec fn pad63(acc: Seq<Option<ChessId>>) -> Seq<Option<ChessId>> {
    Seq::new(63, |i: int| if i < acc.len() {
        acc[i]
    } else {
        None
    })
}

/// The parser: walks the characters with the cells read so far in
/// `acc`. A space must be followed by the side letter and ends the
/// string; `/` is skipped; a digit adds that many empty cells; a piece
/// letter fills the next cell, which must exist; anything else is
/// malformed.
pub open spec fn parse_cells(s: Seq<char>, i: int, acc: Seq<Option<ChessId>>) -> Option<
    (Seq<Option<ChessId>>, RoleType),
>
    decreases s.len() - i,
{
    if i < 0 || i >= s.len() {
        None
    } else {
        let c = s[i];
        if c == ' ' {
            if i + 1 < s.len() && (s[i + 1] == 'w' || s[i + 1] == 'b') {
                Some((pad63(acc), if s[i + 1] == 'w' {
                    RoleType::RED
                } else {
                    RoleType::BLACK
                }))
            } else {
                None
            }
        } else if c == '/' {
            parse_cells(s, i + 1, acc)
        } else if is_digit(c) {
            parse_cells(s, i + 1, acc + Seq::new(digit_val(c) as nat, |_t: int| None))
        } else {
            match char_piece(c) {
                Some(p) => if acc.len() >= 63 {
                    None
                } else {
                    parse_cells(s, i + 1, acc.push(Some(p)))
                },
                None => None,
            }
        }
    }
}

/// Parse a whole position string.
pub open spec fn spec_parse_fen(s: Seq<char>) -> Option<(Seq<Option<ChessId>>, RoleType)> {
    parse_cells(s, 0, Seq::empty())
}

/// Render the rest of one row, with `count` empty cells pending.
pub open spec fn render_cells(row: Seq<Option<ChessId>>, j: int, count: int) -> Seq<char>
    decreases row.len() - j,
{
    if j < 0 || j >= row.len() {
        if count > 0 {
            seq![digit_char(count)]
        } else {
            Seq::empty()
        }
    } else {
        match row[j] {
            None => render_cells(row, j + 1, count + 1),
            Some(p) => (if count > 0 {
                seq![digit_char(count)]
            } else {
                Seq::empty()
            }) + seq![piece_char(p)] + render_cells(row, j + 1, 0),
        }
    }
}

/// Render rows `r..9`, each but the last followed by `/`.
pub open spec fn render_rows(grid: Seq<Option<ChessId>>, r: int) -> Seq<char>
    decreases 9 - r,
{
    if r < 0 || r >= 9 {
        Seq::empty()
    } else {
        render_cells(grid.subrange(7 * r, 7 * r + 7), 0, 0) + (if r < 8 {
            seq!['/']
        } else {
            Seq::empty()
        }) + render_rows(grid, r + 1)
    }
}

/// Render a whole position string.
pub open spec fn spec_render_fen(grid: Seq<Option<ChessId>>, role: RoleType) -> Seq<char> {
    render_rows(grid, 0) + seq![' ', side_char(role)]
}

/// The letter of a piece maps back to that piece and is no digit,
/// space or separator.
pub proof fn lemma_piece_char_class(p: ChessId)
    ensures
        char_piece(piece_char(p)) == Some(p),
        piece_char(p) != ' ',
        piece_char(p) != '/',
        !is_digit(piece_char(p)),
{
}

/// A run length 1..=9 renders as a digit carrying exactly that value.
pub proof fn lemma_digit_char_class(n: int)
    requires
        1 <= n <= 9,
    ensures
        is_digit(digit_char(n)),
        digit_val(digit_char(n)) == n,
        digit_char(n) != ' ',
        digit_char(n) != '/',
        char_piece(digit_char(n)) == None::<ChessId>,
{
}

/// Parsing the rendering of the rest of a row advances the parser past
/// it and appends exactly the row's remaining cells.
proof fn lemma_parse_render_cells(
    s: Seq<char>,
    i: int,
    row: Seq<Option<ChessId>>,
    j: int,
    count: int,
    acc: Seq<Option<ChessId>>,
)
    requires
        row.len() == 7,
        0 <= count <= j <= 7,
        acc.len() + count + (7 - j) <= 63,
        0 <= i,
        i + render_cells(row, j, count).len() <= s.len(),
        s.subrange(i, i + render_cells(row, j, count).len()) == render_cells(row, j, count),
    ensures
        parse_cells(s, i, acc) == parse_cells(
            s,
            i + render_cells(row, j, count).len(),
            acc + Seq::new(count as nat, |_t: int| None) + row.subrange(j, 7),
        ),
    decreases 7 - j,
{
    let out = render_cells(row, j, count);
    let nones = Seq::new(count as nat, |_t: int| None::<ChessId>);
    if j == 7 {
        assert(row.subrange(7, 7) =~= Seq::<Option<ChessId>>::empty());
        if count > 0 {
            lemma_digit_char_class(count);
            assert(s[i] == out[0]);
            assert(out[0] == digit_char(count));
            assert(parse_cells(s, i, acc) == parse_cells(
                s,
                i + 1,
                acc + Seq::new(digit_val(digit_char(count)) as nat, |_t: int| None),
            ));
            assert(acc + Seq::new(digit_val(digit_char(count)) as nat, |_t: int| None) =~= acc
                + nones + row.subrange(7, 7));
        } else {
            assert(out.len() == 0);
            assert(acc + nones + row.subrange(7, 7) =~= acc);
        }
    } else {
        match row[j] {
            None => {
                assert(out == render_cells(row, j + 1, count + 1));
                lemma_parse_render_cells(s, i, row, j + 1, count + 1, acc);
                assert(acc + Seq::new((count + 1) as nat, |_t: int| None) + row.subrange(j + 1, 7)
                    =~= acc + nones + row.subrange(j, 7));
            },
            Some(p) => {
                lemma_piece_char_class(p);
                let rest = render_cells(row, j + 1, 0);
                let i1 = if count > 0 {
                    i + 1
                } else {
                    i
                };
                let acc1 = if count > 0 {
                    acc + nones
                } else {
                    acc
                };
                if count > 0 {
                    lemma_digit_char_class(count);
                    assert(out == seq![digit_char(count)] + seq![piece_char(p)] + rest);
                    assert(s[i] == out[0]);
                    assert(out[0] == digit_char(count));
                    assert(parse_cells(s, i, acc) == parse_cells(
                        s,
                        i + 1,
                        acc + Seq::new(digit_val(digit_char(count)) as nat, |_t: int| None),
                    ));
                    assert(acc + Seq::new(digit_val(digit_char(count)) as nat, |_t: int| None)
                        =~= acc1);
                } else {
                    assert(out =~= seq![piece_char(p)] + rest);
                }
                // the piece letter is next
                assert(s[i1] == out[i1 - i]);
                assert(out[i1 - i] == piece_char(p));
                assert(acc1.len() < 63);
                assert(parse_cells(s, i1, acc1) == parse_cells(s, i1 + 1, acc1.push(Some(p))));
                assert(s.subrange(
                    i1 + 1,
                    i1 + 1 + rest.len(),
                ) =~= s.subrange(i, i + out.len()).subrange(i1 + 1 - i, i1 + 1 - i + rest.len()));
                assert(s.subrange(i1 + 1, i1 + 1 + rest.len()) =~= rest);
                lemma_parse_render_cells(s, i1 + 1, row, j + 1, 0, acc1.push(Some(p)));
                assert(acc1.push(Some(p)) + Seq::new(0nat, |_t: int| None) + row.subrange(j + 1, 7)
                    =~= acc + nones + row.subrange(j, 7));
                assert(i1 + 1 + rest.len() == i + out.len());
            },
        }
    }
}

/// Parsing the rendering of rows `r..9` plus the side suffix yields the
/// full grid and the side.
proof fn lemma_parse_render_rows(
    s: Seq<char>,
    i: int,
    grid: Seq<Option<ChessId>>,
    r: int,
    acc: Seq<Option<ChessId>>,
    role: RoleType,
)
    requires
        grid.len() == 63,
        0 <= r <= 9,
        acc.len() == 7 * r,
        0 <= i,
        s.len() == i + render_rows(grid, r).len() + 2,
        s.subrange(i, i + render_rows(grid, r).len()) == render_rows(grid, r),
        s[s.len() - 2] == ' ',
        s[s.len() - 1] == side_char(role),
    ensures
        parse_cells(s, i, acc) == Some((pad63(acc + grid.subrange(7 * r, 63)), role)),
    decreases 9 - r,
{
    if r == 9 {
        assert(render_rows(grid, 9).len() == 0);
        assert(i == s.len() - 2);
        assert(s[i] == ' ');
        assert(s[i + 1] == side_char(role));
        if role == RoleType::RED {
            assert(s[i + 1] == 'w');
        } else {
            assert(s[i + 1] == 'b');
            assert(s[i + 1] != 'w');
        }
        assert(acc + grid.subrange(63, 63) =~= acc);
    } else {
        let row = grid.subrange(7 * r, 7 * r + 7);
        let rowout = render_cells(row, 0, 0);
        let sep: Seq<char> = if r < 8 {
            seq!['/']
        } else {
            Seq::empty()
        };
        let rest = render_rows(grid, r + 1);
        assert(render_rows(grid, r) == rowout + sep + rest);
        let out = render_rows(grid, r);
        assert(s.subrange(i, i + rowout.len()) =~= s.subrange(i, i + out.len()).subrange(
            0,
            rowout.len() as int,
        ));
        assert(s.subrange(i, i + rowout.len()) =~= rowout);
        lemma_parse_render_cells(s, i, row, 0, 0, acc);
        let acc1 = acc + Seq::new(0nat, |_t: int| None) + row.subrange(0, 7);
        assert(acc1 =~= acc + row);
        let i1 = i + rowout.len();
        if r < 8 {
            assert(s[i1] == s.subrange(i, i + out.len())[i1 - i]);
            assert(s[i1] == '/');
            assert(parse_cells(s, i1, acc1) == parse_cells(s, i1 + 1, acc1));
            assert(s.subrange(i1 + 1, i1 + 1 + rest.len()) =~= s.subrange(i, i + out.len()).subrange(
                i1 + 1 - i,
                i1 + 1 - i + rest.len(),
            ));
            assert(s.subrange(i1 + 1, i1 + 1 + rest.len()) =~= rest);
            lemma_parse_render_rows(s, i1 + 1, grid, r + 1, acc + row, role);
            assert((acc + row) + grid.subrange(7 * (r + 1), 63) =~= acc + grid.subrange(7 * r, 63));
        } else {
            assert(sep.len() == 0);
            assert(s.subrange(i1, i1 + rest.len()) =~= s.subrange(i, i + out.len()).subrange(
                i1 - i,
                i1 - i + rest.len(),
            ));
            assert(s.subrange(i1, i1 + rest.len()) =~= rest);
            lemma_parse_render_rows(s, i1, grid, r + 1, acc + row, role);
            assert((acc + row) + grid.subrange(7 * (r + 1), 63) =~= acc + grid.subrange(7 * r, 63));
        }
    }
}

/// Loading what was serialized reproduces the grid and the side to
/// move exactly.
pub proof fn lemma_fen_round_trip(grid: Seq<Option<ChessId>>, role: RoleType)
    requires
        grid.len() == 63,
    ensures
        spec_parse_fen(spec_render_fen(grid, role)) == Some((grid, role)),
{
    let s = spec_render_fen(grid, role);
    let body = render_rows(grid, 0);
    assert(s == body + seq![' ', side_char(role)]);
    assert(s.len() == body.len() + 2);
    assert(s.subrange(0, body.len() as int) =~= body);
    assert(s[s.len() - 2] == ' ');
    assert(s[s.len() - 1] == side_char(role));
    lemma_parse_render_rows(s, 0, grid, 0, Seq::empty(), role);
    assert(Seq::<Option<ChessId>>::empty() + grid.subrange(0, 63) =~= grid);
    assert(pad63(grid) =~= grid);
}

} // verus!
