//! Terminal-side helpers with no I/O of their own: the 256-color ANSI
//! palette reduced to RGB triples, copy-mode selection extraction, and
//! shell quoting.

use vstd::prelude::*;
use vstd::string::{StrSliceExecFns, StringExecFns};

verus! {

/// The RGB value of one of the 16 base palette entries.
pub open spec fn ansi_base_rgb(i: u8) -> (u8, u8, u8) {
    if i == 0 {
        (0u8, 0u8, 0u8)
    } else if i == 1 {
        (205u8, 49u8, 49u8)
    } else if i == 2 {
        (13u8, 188u8, 121u8)
    } else if i == 3 {
        (229u8, 229u8, 16u8)
    } else if i == 4 {
        (36u8, 114u8, 200u8)
    } else if i == 5 {
        (188u8, 63u8, 188u8)
    } else if i == 6 {
        (17u8, 168u8, 205u8)
    } else if i == 7 {
        (229u8, 229u8, 229u8)
    } else if i == 8 {
        (102u8, 102u8, 102u8)
    } else if i == 9 {
        (241u8, 76u8, 76u8)
    } else if i == 10 {
        (35u8, 209u8, 139u8)
    } else if i == 11 {
        (245u8, 245u8, 67u8)
    } else if i == 12 {
        (59u8, 142u8, 234u8)
    } else if i == 13 {
        (214u8, 112u8, 214u8)
    } else if i == 14 {
        (41u8, 184u8, 219u8)
    } else {
        (255u8, 255u8, 255u8)
    }
}

/// One channel of the 6x6x6 color cube.
pub open spec fn cube_channel(v: int) -> u8 {
    if v == 0 {
        0u8
    } else {
        (55 + v * 40) as u8
    }
}

/// The RGB value of any 256-color palette index: the 16 base colors,
/// the 6x6x6 color cube, then the 24-step grayscale ramp.
pub open spec fn ansi256_rgb_spec(i: u8) -> (u8, u8, u8) {
    if i < 16 {
        ansi_base_rgb(i)
    } else if i <= 231 {
        let idx = i - 16;
        (cube_channel(idx / 36), cube_channel((idx % 36) / 6), cube_channel(idx % 6))
    } else {
        let gray = (8 + (i - 232) * 10) as u8;
        (gray, gray, gray)
    }
}

/// Computes the RGB triple of a 256-color palette index.
pub fn ansi256_to_rgb(i: u8) -> (r: (u8, u8, u8))
    ensures
        r == ansi256_rgb_spec(i),
{
    if i < 16 {
        match i {
            0 => (0, 0, 0),
            1 => (205, 49, 49),
            2 => (13, 188, 121),
            3 => (229, 229, 16),
            4 => (36, 114, 200),
            5 => (188, 63, 188),
            6 => (17, 168, 205),
            7 => (229, 229, 229),
            8 => (102, 102, 102),
            9 => (241, 76, 76),
            10 => (35, 209, 139),
            11 => (245, 245, 67),
            12 => (59, 142, 234),
            13 => (214, 112, 214),
            14 => (41, 184, 219),
            _ => (255, 255, 255),
        }
    } else if i <= 231 {
        let idx = i - 16;
        proof {
            assert(idx / 36 <= 5) by (nonlinear_arith)
                requires
                    idx <= 215,
            ;
            assert((idx % 36) / 6 <= 5) by (nonlinear_arith)
                requires
                    idx <= 215,
            ;
            assert(idx % 6 <= 5) by (nonlinear_arith);
        }
        let rc = cube_channel_exec(idx / 36);
        let gc = cube_channel_exec((idx % 36) / 6);
        let bc = cube_channel_exec(idx % 6);
        (rc, gc, bc)
    } else {
        let gray = 8 + (i - 232) * 10;
        (gray, gray, gray)
    }
}

fn cube_channel_exec(v: u8) -> (r: u8)
    requires
        v <= 5,
    ensures
        r == cube_channel(v as int),
{
    if v == 0 {
        0
    } else {
        55 + v * 40
    }
}

// ---------------------------------------------------------------------
// Copy-mode selection extraction.
// ---------------------------------------------------------------------

/// The byte range a selection covers on one row: the whole row for
/// middle rows, from the anchor column on the first, up to the cursor
/// column on the last, and between the two on a single-row selection.
/// Columns past the end of a row are clamped to its last byte.
pub open spec fn selection_row(line: Seq<u8>, x0: int, x1: int) -> Seq<u8> {
    if line.len() == 0 {
        Seq::empty()
    } else {
        let start = if x0 < line.len() - 1 {
            x0
        } else {
            line.len() - 1
        };
        let end = if x1 < line.len() - 1 {
            x1
        } else {
            line.len() - 1
        };
        line.subrange(start, end + 1)
    }
}

/// The column range the selection covers on row `y`.
pub open spec fn selection_cols(sx: int, ex: int, y: int, y0: int, y1: int, line_len: int) -> (
    int,
    int,
) {
    if y == y0 && y == y1 {
        (if sx < ex { sx } else { ex }, if sx < ex { ex } else { sx })
    } else if y == y0 {
        (sx, if line_len > 0 { line_len - 1 } else { 0 })
    } else if y == y1 {
        (0, ex)
    } else {
        (0, if line_len > 0 { line_len - 1 } else { 0 })
    }
}

/// The selected rows from `y` up to `y1`, joined by newlines.
pub open spec fn selection_from(
    lines: Seq<Seq<u8>>,
    sx: int,
    ex: int,
    y0: int,
    y1: int,
    y: int,
) -> Seq<u8>
    decreases y1 - y,
{
    if y < 0 || y > y1 || y >= lines.len() {
        Seq::empty()
    } else {
        let cols = selection_cols(sx, ex, y, y0, y1, lines[y].len() as int);
        let row = selection_row(lines[y], cols.0, cols.1);
        if y == y1 {
            row
        } else {
            row + seq![10u8] + selection_from(lines, sx, ex, y0, y1, y + 1)
        }
    }
}

/// The whole selection between the anchor `(sx, sy)` and the cursor
/// `(ex, ey)`, as the joined row slices.
pub open spec fn selection_text(
    lines: Seq<Seq<u8>>,
    sx: int,
    sy: int,
    ex: int,
    ey: int,
) -> Seq<u8> {
    let y0 = if sy < ey { sy } else { ey };
    let ymax = if sy < ey { ey } else { sy };
    let y1 = if ymax < lines.len() - 1 {
        ymax
    } else {
        lines.len() - 1
    };
    selection_from(lines, sx, ex, y0, y1, y0)
}

fn selection_row_exec(line: &Vec<u8>, x0: usize, x1: usize) -> (r: Vec<u8>)
    requires
        x0 <= x1 || x1 >= line@.len() - 1,
    ensures
        r@ == selection_row(line@, x0 as int, x1 as int),
{
    let mut r: Vec<u8> = Vec::new();
    if line.len() == 0 {
        proof {
            assert(r@ =~= selection_row(line@, x0 as int, x1 as int));
        }
        return r;
    }
    let last = line.len() - 1;
    let start = if x0 < last {
        x0
    } else {
        last
    };
    let end = if x1 < last {
        x1
    } else {
        last
    };
    let mut i: usize = start;
    while i <= end
        invariant
            start <= i <= end + 1,
            end < line@.len(),
            line@.len() <= usize::MAX,
            r@.len() == i - start,
            forall|j: int| 0 <= j < r@.len() ==> r@[j] == line@[start + j],
        decreases end + 1 - i,
    {
        r.push(line[i]);
        i = i + 1;
    }
    proof {
        assert(r@ =~= line@.subrange(start as int, end + 1));
    }
    r
}

/// Extracts the text between a selection anchor and the copy cursor
/// from the screen's rows, as bytes, rows joined by newlines; nothing
/// when the screen has no rows.
pub fn extract_selection(lines: &Vec<Vec<u8>>, sx: u16, sy: u16, ex: u16, ey: u16) -> (r: Option<
    Vec<u8>,
>)
    ensures
        lines@.len() == 0 ==> r is None,
        lines@.len() > 0 ==> (r matches Some(v) && v@ == selection_text(
            lines@.map_values(|l: Vec<u8>| l@),
            sx as int,
            sy as int,
            ex as int,
            ey as int,
        )),
{
    let ghost lv = lines@.map_values(|l: Vec<u8>| l@);
    if lines.len() == 0 {
        return None;
    }
    let y0: usize = if sy < ey {
        sy as usize
    } else {
        ey as usize
    };
    let ymax: usize = if sy < ey {
        ey as usize
    } else {
        sy as usize
    };
    let y1: usize = if ymax < lines.len() - 1 {
        ymax
    } else {
        lines.len() - 1
    };
    let mut out: Vec<u8> = Vec::new();
    if y0 > y1 {
        // The anchor row lies past the last row; nothing is selected.
        proof {
            assert(out@ =~= selection_text(lv, sx as int, sy as int, ex as int, ey as int));
        }
        return Some(out);
    }
    let mut y: usize = y0;
    while y <= y1
        invariant
            y0 <= y <= y1 + 1,
            y1 < lines@.len(),
            lines@.len() <= usize::MAX,
            lv == lines@.map_values(|l: Vec<u8>| l@),
            selection_from(lv, sx as int, ex as int, y0 as int, y1 as int, y0 as int) == out@
                + selection_from(lv, sx as int, ex as int, y0 as int, y1 as int, y as int),
        decreases y1 + 1 - y,
    {
        let line = &lines[y];
        let line_len = line.len();
        let (x0, x1): (usize, usize) = if y == y0 && y == y1 {
            (
                if sx < ex {
                    sx as usize
                } else {
                    ex as usize
                },
                if sx < ex {
                    ex as usize
                } else {
                    sx as usize
                },
            )
        } else if y == y0 {
            (sx as usize, if line_len > 0 {
                line_len - 1
            } else {
                0
            })
        } else if y == y1 {
            (0, ex as usize)
        } else {
            (0, if line_len > 0 {
                line_len - 1
            } else {
                0
            })
        };
        proof {
            assert((x0 as int, x1 as int) == selection_cols(
                sx as int,
                ex as int,
                y as int,
                y0 as int,
                y1 as int,
                lv[y as int].len() as int,
            ));
        }
        let row = selection_row_exec(line, x0, x1);
        let ghost prev = out@;
        let mut k: usize = 0;
        while k < row.len()
            invariant
                k <= row@.len(),
                out@ == prev + row@.subrange(0, k as int),
            decreases row.len() - k,
        {
            proof {
                assert(prev + row@.subrange(0, k + 1) =~= (prev + row@.subrange(0, k as int)).push(
                    row@[k as int],
                ));
            }
            out.push(row[k]);
            k = k + 1;
        }
        proof {
            assert(row@.subrange(0, row@.len() as int) =~= row@);
            assert(out@ == prev + row@);
        }
        if y < y1 {
            out.push(10);
            proof {
                assert(out@ =~= prev + (row@ + seq![10u8]));
                assert(selection_from(lv, sx as int, ex as int, y0 as int, y1 as int, y as int)
                    =~= row@ + seq![10u8] + selection_from(
                    lv,
                    sx as int,
                    ex as int,
                    y0 as int,
                    y1 as int,
                    y + 1,
                ));
                assert(prev + (row@ + seq![10u8] + selection_from(
                    lv,
                    sx as int,
                    ex as int,
                    y0 as int,
                    y1 as int,
                    y + 1,
                )) =~= out@ + selection_from(lv, sx as int, ex as int, y0 as int, y1 as int, y + 1));
            }
        } else {
            proof {
                assert(selection_from(lv, sx as int, ex as int, y0 as int, y1 as int, y as int)
                    == row@);
                assert(prev + row@ =~= out@ + selection_from(
                    lv,
                    sx as int,
                    ex as int,
                    y0 as int,
                    y1 as int,
                    y + 1,
                ));
            }
        }
        y = y + 1;
    }
    proof {
        assert(out@ + selection_from(lv, sx as int, ex as int, y0 as int, y1 as int, y1 + 1)
            =~= out@);
        assert(out@ == selection_text(lv, sx as int, sy as int, ex as int, ey as int));
    }
    Some(out)
}

// ---------------------------------------------------------------------
// Shell quoting.
// ---------------------------------------------------------------------

/// How one character is spelled inside a single-quoted shell word: a
/// single quote closes the word, emits a double-quoted quote, and
/// reopens it; everything else passes through.
pub open spec fn quote_char(c: char) -> Seq<char> {
    if c == '\'' {
        seq!['\'', '"', '\'', '"', '\'']
    } else {
        seq![c]
    }
}

/// The body of a quoted word: every character expanded.
pub open spec fn quote_body(s: Seq<char>) -> Seq<char>
    decreases s.len(),
{
    if s.len() == 0 {
        Seq::empty()
    } else {
        quote_char(s[0]) + quote_body(s.drop_first())
    }
}

/// A string as a single shell word: wrapped in single quotes, with
/// embedded single quotes escaped.
pub open spec fn shell_quoted(s: Seq<char>) -> Seq<char> {
    seq!['\''] + quote_body(s) + seq!['\'']
}

proof fn lemma_quote_body_concat(a: Seq<char>, b: Seq<char>)
    ensures
        quote_body(a + b) == quote_body(a) + quote_body(b),
    decreases a.len(),
{
    if a.len() == 0 {
        assert(a + b =~= b);
        assert(quote_body(a) + quote_body(b) =~= quote_body(b));
    } else {
        assert((a + b).drop_first() =~= a.drop_first() + b);
        assert((a + b)[0] == a[0]);
        lemma_quote_body_concat(a.drop_first(), b);
        assert(quote_char(a[0]) + (quote_body(a.drop_first()) + quote_body(b))
            =~= (quote_char(a[0]) + quote_body(a.drop_first())) + quote_body(b));
    }
}

proof fn lemma_quote_body_plain(a: Seq<char>)
    requires
        forall|i: int| 0 <= i < a.len() ==> a[i] != '\'',
    ensures
        quote_body(a) == a,
    decreases a.len(),
{
    if a.len() > 0 {
        lemma_quote_body_plain(a.drop_first());
        assert(quote_body(a) =~= a);
    }
}

/// Quotes a string as one shell word, escaping embedded single quotes
/// the way a POSIX shell expects.
pub fn shell_quote(input: &str) -> (r: String)
    ensures
        r@ == shell_quoted(input@),
{
    proof {
        reveal_strlit("'");
        reveal_strlit("'\"'\"'");
        assert("'"@ =~= seq!['\'']);
        assert("'\"'\"'"@ =~= seq!['\'', '"', '\'', '"', '\'']);
    }
    let n: usize = input.unicode_len();
    let mut r: String = "'".to_owned();
    proof {
        assert(r@ =~= seq!['\''] + quote_body(input@.subrange(0, 0)));
    }
    let mut start: usize = 0;
    let mut i: usize = 0;
    while i < n
        invariant
            start <= i <= n,
            n == input@.len(),
            r@ == seq!['\''] + quote_body(input@.subrange(0, start as int)),
            forall|j: int| start <= j < i ==> input@[j] != '\'',
        decreases n - i,
    {
        if input.get_char(i) == '\'' {
            r.append(input.substring_char(start, i));
            r.append("'\"'\"'");
            proof {
                reveal_strlit("'\"'\"'");
                assert("'\"'\"'"@ =~= seq!['\'', '"', '\'', '"', '\'']);
                let pre = input@.subrange(0, start as int);
                let run = input@.subrange(start as int, i as int);
                lemma_quote_body_plain(run);
                lemma_quote_body_concat(pre, run);
                assert(pre + run =~= input@.subrange(0, i as int));
                lemma_quote_body_concat(input@.subrange(0, i as int), seq![input@[i as int]]);
                assert(input@.subrange(0, i as int) + seq![input@[i as int]]
                    =~= input@.subrange(0, i + 1));
                assert(seq![input@[i as int]].drop_first() =~= Seq::<char>::empty());
                assert(quote_body(Seq::<char>::empty()) =~= Seq::<char>::empty());
                assert(quote_body(seq![input@[i as int]]) =~= quote_char(input@[i as int]));
                assert(r@ =~= seq!['\''] + quote_body(pre) + run + seq![
                    '\'',
                    '"',
                    '\'',
                    '"',
                    '\'',
                ]);
                assert(quote_body(input@.subrange(0, i + 1)) =~= quote_body(pre) + run + seq![
                    '\'',
                    '"',
                    '\'',
                    '"',
                    '\'',
                ]);
                assert(r@ =~= seq!['\''] + quote_body(input@.subrange(0, i + 1)));
            }
            start = i + 1;
        }
        i = i + 1;
    }
    r.append(input.substring_char(start, n));
    r.append("'");
    proof {
        reveal_strlit("'");
        assert("'"@ =~= seq!['\'']);
        let pre = input@.subrange(0, start as int);
        let run = input@.subrange(start as int, n as int);
        lemma_quote_body_plain(run);
        lemma_quote_body_concat(pre, run);
        assert(pre + run =~= input@.subrange(0, n as int));
        assert(input@.subrange(0, n as int) =~= input@);
        assert(r@ =~= shell_quoted(input@));
    }
    r
}

} // verus!
