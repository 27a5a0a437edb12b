//! Large five-row glyphs for the timer display.

use vstd::prelude::*;
use vstd::string::*;

verus! {

/// Number of text rows in every glyph.
pub const GLYPH_ROWS: usize = 5;

/// Row `row` of the glyph drawn for `c`: the ten digits and the colon have a
/// shape of their own, every other character is drawn as a blank cell.
pub open spec fn glyph_row(c: char, row: int) -> Seq<char> {
    get_char_art_spec(c)[row]@
}

/// The glyph of `c` as its five rows.
pub open spec fn get_char_art_spec(c: char) -> [&'static str; 5] {
    if c == '0' {
        [" ███ ", "█   █", "█   █", "█   █", " ███ "]
    } else if c == '1' {
        ["  █  ", " ██  ", "  █  ", "  █  ", " ███ "]
    } else if c == '2' {
        [" ███ ", "█   █", "  ██ ", " █   ", "█████"]
    } else if c == '3' {
        [" ███ ", "█   █", "  ██ ", "█   █", " ███ "]
    } else if c == '4' {
        ["█   █", "█   █", "█████", "    █", "    █"]
    } else if c == '5' {
        ["█████", "█    ", "████ ", "    █", "████ "]
    } else if c == '6' {
        [" ███ ", "█    ", "████ ", "█   █", " ███ "]
    } else if c == '7' {
        ["█████", "    █", "   █ ", "  █  ", "  █  "]
    } else if c == '8' {
        [" ███ ", "█   █", " ███ ", "█   █", " ███ "]
    } else if c == '9' {
        [" ███ ", "█   █", " ████", "    █", " ███ "]
    } else if c == ':' {
        ["     ", "  █  ", "     ", "  █  ", "     "]
    } else {
        ["     ", "     ", "     ", "     ", "     "]
    }
}

/// The glyph for a single character.
#[verifier::when_used_as_spec(get_char_art_spec)]
pub fn get_char_art(c: char) -> (art: [&'static str; 5])
    ensures
        art == get_char_art_spec(c),
{
    match c {
        '0' => [" ███ ", "█   █", "█   █", "█   █", " ███ "],
        '1' => ["  █  ", " ██  ", "  █  ", "  █  ", " ███ "],
        '2' => [" ███ ", "█   █", "  ██ ", " █   ", "█████"],
        '3' => [" ███ ", "█   █", "  ██ ", "█   █", " ███ "],
        '4' => ["█   █", "█   █", "█████", "    █", "    █"],
        '5' => ["█████", "█    ", "████ ", "    █", "████ "],
        '6' => [" ███ ", "█    ", "████ ", "█   █", " ███ "],
        '7' => ["█████", "    █", "   █ ", "  █  ", "  █  "],
        '8' => [" ███ ", "█   █", " ███ ", "█   █", " ███ "],
        '9' => [" ███ ", "█   █", " ████", "    █", " ███ "],
        ':' => ["     ", "  █  ", "     ", "  █  ", "     "],
        _ => ["     ", "     ", "     ", "     ", "     "],
    }
}

/// Row `row` of the banner for `text`: the glyph rows of its characters in
/// order, each followed by one blank column.
pub open spec fn banner_row(text: Seq<char>, row: int) -> Seq<char>
    decreases text.len(),
{
    if text.len() == 0 {
        Seq::empty()
    } else {
        banner_row(text.drop_last(), row) + glyph_row(text.last(), row) + seq![' ']
    }
}

/// Renders a time string such as "25:00" as five rows of large glyphs.
pub fn time_to_ascii_art(time_str: &str) -> (lines: Vec<String>)
    ensures
        lines@.len() == GLYPH_ROWS,
        forall|row: int| 0 <= row < GLYPH_ROWS ==> (#[trigger] lines@[row])@ == banner_row(time_str@, row),
{
    let mut lines: Vec<String> = Vec::new();
    let mut row: usize = 0;
    while row < GLYPH_ROWS
        invariant
            row <= GLYPH_ROWS,
            lines@.len() == row,
            forall|r: int| 0 <= r < row ==> (#[trigger] lines@[r])@ == banner_row(time_str@, r),
        decreases GLYPH_ROWS - row,
    {
        let line = banner_line(time_str, row);
        lines.push(line);
        row = row + 1;
    }
    lines
}

/// One row of the banner for `text`.
fn banner_line(text: &str, row: usize) -> (line: String)
    requires
        row < GLYPH_ROWS,
    ensures
        line@ == banner_row(text@, row as int),
{
    let n = text.unicode_len();
    let mut line = String::new();
    let mut i: usize = 0;
    while i < n
        invariant
            i <= n,
            n == text@.len(),
            row < GLYPH_ROWS,
            line@ == banner_row(text@.take(i as int), row as int),
        decreases n - i,
    {
        let c = text.get_char(i);
        let art = get_char_art(c);
        proof {
            let next = text@.take(i + 1);
            assert(next.drop_last() =~= text@.take(i as int));
            assert(next.last() == c);
        }
        line.append(art[row]);
        line.append(" ");
        proof {
            reveal_strlit(" ");
            assert(" "@ =~= seq![' ']);
        }
        i = i + 1;
    }
    proof {
        assert(text@.take(n as int) =~= text@);
    }
    line
}

} // verus!
