//! One frame of a target's terminal: the size it is taken at, and the bytes
//! that show it, rendered by `vt100`.
use vstd::prelude::*;

use crate::text::{parse_u16, parse_u16_spec, split_once, split_once_char, str_chars};

verus! {

/// The rows that `vt100` shows, with their formatting as escape codes, after
/// a terminal of `rows` by `cols` has been fed `data`
/// (`Parser::new(rows, cols, 0)`, `process(data)`,
/// `screen().rows_formatted(0, cols)`).
pub uninterp spec fn vt100_rows(data: Seq<u8>, rows: u16, cols: u16) -> Seq<Seq<u8>>;

pub open spec fn byte_rows(v: Seq<Vec<u8>>) -> Seq<Seq<u8>> {
    v.map_values(|r: Vec<u8>| r@)
}

/// Whether every byte is ASCII.
pub open spec fn all_ascii(data: Seq<u8>) -> bool {
    forall|i: int| 0 <= i < data.len() ==> data[i] < 0x80
}

/// Feeds `data` to a fresh `vt100::Parser` of the given size and returns its
/// formatted rows, which `vt100_rows` names. `vt100` takes at least one row
/// (its grid computes `rows - 1`) and one column (it computes `cols - 1`).
/// Placing a character of width `w` it computes `cols - w`, and only a
/// double-width character has `w` of two, so one column does for ASCII
/// output; which other characters are double-width is `vt100`'s own table,
/// so at one column the output must be ASCII.
#[verifier::external_body]
fn formatted_rows(data: &[u8], rows: u16, cols: u16) -> (r: Vec<Vec<u8>>)
    requires
        rows >= 1,
        cols >= 1,
        cols >= 2 || all_ascii(data@),
    ensures
        byte_rows(r@) == vt100_rows(data@, rows, cols),
{
    let mut parser = vt100::Parser::new(rows, cols, 0);
    parser.process(data);
    parser.screen().rows_formatted(0, cols).collect()
}

/// The chunks of output, one after another.
pub open spec fn joined(chunks: Seq<Seq<u8>>) -> Seq<u8>
    decreases chunks.len(),
{
    if chunks.len() == 0 {
        seq![]
    } else {
        joined(chunks.drop_last()) + chunks.last()
    }
}

/// Row `i` of a frame: the row, an attribute reset, and a line break unless
/// it is the last row.
pub open spec fn row_block(row: Seq<u8>, i: int, rows: u16) -> Seq<u8> {
    row + seq![0x1bu8, '[' as u8, 'm' as u8] + if i < rows - 1 {
        seq!['\r' as u8, '\n' as u8]
    } else {
        seq![]
    }
}

pub open spec fn rows_bytes(ls: Seq<Seq<u8>>, rows: u16) -> Seq<u8>
    decreases ls.len(),
{
    if ls.len() == 0 {
        seq![]
    } else {
        rows_bytes(ls.drop_last(), rows) + row_block(ls.last(), ls.len() - 1, rows)
    }
}

/// A frame: at most `rows` rows, then the cursor made visible and a newline.
pub open spec fn frame_bytes(ls: Seq<Seq<u8>>, rows: u16) -> Seq<u8> {
    let shown = if ls.len() <= rows {
        ls
    } else {
        ls.take(rows as int)
    };
    rows_bytes(shown, rows) + seq![0x1bu8, '[' as u8, '?' as u8, '2' as u8, '5' as u8, 'h' as u8]
        + seq!['\n' as u8]
}

/// The bytes that show the terminal of `rows` by `cols` after it printed
/// `chunks`.
pub fn screen_output(chunks: &Vec<Vec<u8>>, rows: u16, cols: u16) -> (r: Vec<u8>)
    requires
        rows >= 1,
        cols >= 1,
        cols >= 2 || all_ascii(joined(byte_rows(chunks@))),
    ensures
        r@ == frame_bytes(vt100_rows(joined(byte_rows(chunks@)), rows, cols), rows),
{
    let ghost cs = byte_rows(chunks@);
    let mut data: Vec<u8> = Vec::new();
    let mut k: usize = 0;
    assert(cs.take(0) =~= Seq::<Seq<u8>>::empty());
    while k < chunks.len()
        invariant
            cs == byte_rows(chunks@),
            k <= chunks.len(),
            data@ == joined(cs.take(k as int)),
        decreases chunks.len() - k,
    {
        let mut c = chunks[k].clone();
        assert(c@ == chunks@[k as int]@);
        data.append(&mut c);
        assert(cs.take(k + 1).drop_last() =~= cs.take(k as int));
        k += 1;
    }
    assert(cs.take(chunks.len() as int) =~= cs);
    let lines = formatted_rows(data.as_slice(), rows, cols);
    frame_from_rows(&lines, rows)
}

/// The chunks before `m` make a prefix of all the chunks joined.
proof fn lemma_joined_prefix(cs: Seq<Seq<u8>>, m: int)
    requires
        0 <= m <= cs.len(),
    ensures
        joined(cs.take(m)).len() <= joined(cs).len(),
        forall|i: int| 0 <= i < joined(cs.take(m)).len() ==> joined(cs)[i] == joined(cs.take(m))[i],
    decreases cs.len(),
{
    if m == cs.len() {
        assert(cs.take(m) =~= cs);
    } else {
        let d = cs.drop_last();
        assert(d.take(m) =~= cs.take(m));
        lemma_joined_prefix(d, m);
    }
}

/// Whether a terminal of `rows` by `cols` can show `chunks`: it has a row and
/// a column, and at a single column the output is all ASCII.
pub fn screen_renderable(chunks: &Vec<Vec<u8>>, rows: u16, cols: u16) -> (r: bool)
    ensures
        r == (rows >= 1 && cols >= 1 && (cols >= 2 || all_ascii(joined(byte_rows(chunks@))))),
{
    if rows < 1 || cols < 1 {
        return false;
    }
    if cols >= 2 {
        return true;
    }
    let ghost cs = byte_rows(chunks@);
    let mut k: usize = 0;
    assert(cs.take(0) =~= Seq::<Seq<u8>>::empty());
    while k < chunks.len()
        invariant
            rows >= 1,
            cols == 1,
            cs == byte_rows(chunks@),
            k <= chunks.len(),
            all_ascii(joined(cs.take(k as int))),
        decreases chunks.len() - k,
    {
        let c = &chunks[k];
        let mut j: usize = 0;
        while j < c.len()
            invariant
                rows >= 1,
                cols == 1,
                cs == byte_rows(chunks@),
                k < chunks.len(),
                c@ == cs[k as int],
                all_ascii(joined(cs.take(k as int))),
                j <= c.len(),
                forall|i: int| 0 <= i < j ==> c@[i] < 0x80,
            decreases c.len() - j,
        {
            if c[j] >= 0x80 {
                proof {
                    lemma_joined_prefix(cs, k + 1);
                    assert(cs.take(k + 1).drop_last() =~= cs.take(k as int));
                    assert(cs.take(k + 1).last() == c@);
                    let pre = joined(cs.take(k as int)).len();
                    assert(joined(cs.take(k + 1))[pre + j] == c@[j as int]);
                    assert(pre + j < joined(cs.take(k + 1)).len());
                    assert(joined(cs)[pre + j] >= 0x80);
                    assert(!all_ascii(joined(cs)));
                }
                return false;
            }
            j += 1;
        }
        assert(cs.take(k + 1).drop_last() =~= cs.take(k as int));
        assert(cs.take(k + 1).last() == c@);
        k += 1;
    }
    assert(cs.take(chunks.len() as int) =~= cs);
    true
}

/// The bytes of a frame made of `vt100`'s formatted rows: at most `rows` of
/// them, each followed by an attribute reset and, but for the last row of the
/// terminal, a line break; then the cursor is shown and the line ended.
pub fn frame_from_rows(lines: &Vec<Vec<u8>>, rows: u16) -> (r: Vec<u8>)
    requires
        rows >= 1,
    ensures
        r@ == frame_bytes(byte_rows(lines@), rows),
{
    let ghost ls = byte_rows(lines@);
    let n: usize = if lines.len() <= rows as usize {
        lines.len()
    } else {
        rows as usize
    };
    let ghost shown = if ls.len() <= rows {
        ls
    } else {
        ls.take(rows as int)
    };
    assert(shown.len() == n);
    let mut out: Vec<u8> = Vec::new();
    let mut i: usize = 0;
    while i < n
        invariant
            ls == byte_rows(lines@),
            rows >= 1,
            n <= lines.len(),
            n == shown.len(),
            forall|j: int| 0 <= j < n ==> shown[j] == ls[j],
            i <= n,
            out@ == rows_bytes(shown.take(i as int), rows),
        decreases n - i,
    {
        let mut row = lines[i].clone();
        assert(row@ == ls[i as int]);
        out.append(&mut row);
        out.push(0x1b);
        out.push('[' as u8);
        out.push('m' as u8);
        if i < (rows as usize) - 1 {
            out.push('\r' as u8);
            out.push('\n' as u8);
        }
        assert(shown.take(i + 1).drop_last() =~= shown.take(i as int));
        assert(shown.take(i + 1).last() == ls[i as int]);
        assert(out@ =~= rows_bytes(shown.take(i + 1), rows));
        i += 1;
    }
    assert(shown.take(n as int) =~= shown);
    out.push(0x1b);
    out.push('[' as u8);
    out.push('?' as u8);
    out.push('2' as u8);
    out.push('5' as u8);
    out.push('h' as u8);
    out.push('\n' as u8);
    assert(out@ =~= frame_bytes(ls, rows));
    out
}

/// The size a frame is taken at: `COLSxROWS` when given, else the terminal's
/// own size, else 80 by 24.
pub open spec fn spec_parse_size(size: Option<Seq<char>>, terminal: Option<(u16, u16)>) -> Result<
    (u16, u16),
    Seq<char>,
> {
    match size {
        Some(s) => match split_once(s, seq!['x']) {
            None => Err("invalid size '"@ + s + "', expected COLSxROWS (e.g. 80x24)"@),
            Some((cols, rows)) => match parse_u16_spec(cols) {
                Err(k) => Err(k.spec_message()),
                Ok(c) => match parse_u16_spec(rows) {
                    Err(k) => Err(k.spec_message()),
                    Ok(r) => Ok((c, r)),
                },
            },
        },
        None => match terminal {
            Some(wh) => Ok(wh),
            None => Ok((80, 24)),
        },
    }
}

/// Reads a `COLSxROWS` size; without one, the terminal's size (if known) or
/// 80 by 24.
pub fn parse_size(size: Option<&str>, terminal: Option<(u16, u16)>) -> (r: Result<
    (u16, u16),
    String,
>)
    ensures
        match spec_parse_size(
            match size {
                Some(s) => Some(s@),
                None => None,
            },
            terminal,
        ) {
            Ok(cr) => r matches Ok(x) && x == cr,
            Err(e) => r matches Err(m) && m@ == e,
        },
{
    match size {
        Some(s) => {
            let v = str_chars(s);
            match split_once_char(&v, 'x') {
                None => {
                    let mut e = String::from_str("invalid size '");
                    e.append(s);
                    e.append("', expected COLSxROWS (e.g. 80x24)");
                    Err(e)
                },
                Some((cols, rows)) => {
                    let c = match parse_u16(&cols) {
                        Ok(c) => c,
                        Err(k) => return Err(k.message()),
                    };
                    let r = match parse_u16(&rows) {
                        Ok(r) => r,
                        Err(k) => return Err(k.message()),
                    };
                    Ok((c, r))
                },
            }
        },
        None => match terminal {
            Some(wh) => Ok(wh),
            None => Ok((80, 24)),
        },
    }
}

} // verus!
