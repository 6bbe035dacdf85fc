//! The grid builder: a message laid out as one cell per calendar day.
//!
//! The grid opens with a blank column of seven background cells. After it
//! come the glyphs of the message, character by character and, within a
//! glyph, bit by bit in column order. Each cell takes the next day of the
//! date cursor.

use crate::calendar::{days_left, CalendarDay, MovingDate};
use crate::font::{columns, Font};
use vstd::prelude::*;
use vstd::string::*;
use vstd::utf8::is_ascii_chars;

verus! {

/// Whether a cell belongs to a lit pixel of a glyph or to the background.
#[derive(Clone, Copy, Debug, PartialEq, Eq, Structural)]
pub enum Fill {
    Character,
    Background,
}

/// One cell of the grid: a day and what it shows.
#[derive(Clone, Copy, Debug, PartialEq, Eq)]
pub struct Pixel {
    pub date: CalendarDay,
    pub fill: Fill,
}

impl View for Pixel {
    type V = (int, Fill);

    /// The day number and the fill.
    open spec fn view(&self) -> (int, Fill) {
        (self.date@, self.fill)
    }
}

/// The cells as day numbers and fills.
pub open spec fn cells_view(cells: Seq<Pixel>) -> Seq<(int, Fill)> {
    cells.map_values(|cell: Pixel| cell@)
}

/// Why a message could not be laid out.
#[derive(Clone, Copy, Debug, PartialEq, Eq, Structural)]
pub enum BuildError {
    /// The message holds a character outside the 7-bit ASCII range.
    InvalidMessage,
    /// The font table has no glyph for this character of the message.
    UnknownGlyph(char),
    /// The message needs a day after today.
    WindowExceeded,
}

/// The fill of a cell under a glyph bit.
pub open spec fn fill_of(bit: bool) -> Fill {
    if bit {
        Fill::Character
    } else {
        Fill::Background
    }
}

/// The fills of a glyph, bit by bit.
pub open spec fn glyph_fills(bits: Seq<bool>) -> Seq<Fill> {
    Seq::new(bits.len(), |i: int| fill_of(bits[i]))
}

/// The blank column that opens every grid.
pub open spec fn lead_in() -> Seq<Fill> {
    Seq::new(7, |i: int| Fill::Background)
}

/// The fills of the grid of `message`: the lead-in, then the glyph of each
/// character in turn.
pub open spec fn message_fills(message: Seq<char>, font: Map<char, Seq<bool>>) -> Seq<Fill>
    decreases message.len(),
{
    if message.len() == 0 {
        lead_in()
    } else {
        message_fills(message.drop_last(), font) + glyph_fills(font[message.last()])
    }
}

/// The sum of the widths of the glyphs of `message`.
pub open spec fn total_width(message: Seq<char>, font: Map<char, Seq<bool>>) -> int
    decreases message.len(),
{
    if message.len() == 0 {
        0
    } else {
        total_width(message.drop_last(), font) + columns(font[message.last()])
    }
}

/// Whether the font has a glyph for every character of `message`.
pub open spec fn all_known(message: Seq<char>, font: Map<char, Seq<bool>>) -> bool {
    forall|i: int| 0 <= i < message.len() ==> font.contains_key(#[trigger] message[i])
}

/// Whether every glyph that `message` uses fills whole columns of seven, as
/// the glyphs of every font table do.
pub open spec fn whole_columns(message: Seq<char>, font: Map<char, Seq<bool>>) -> bool {
    forall|i: int| 0 <= i < message.len() ==> font[#[trigger] message[i]].len() % 7 == 0
}

/// How many characters at the start of `message` have a glyph: the index of
/// the first character without one, or the length of the message.
pub open spec fn known_prefix(message: Seq<char>, font: Map<char, Seq<bool>>) -> int
    decreases message.len(),
{
    if message.len() == 0 || !font.contains_key(message[0]) {
        0
    } else {
        1 + known_prefix(message.skip(1), font)
    }
}

/// The fills laid out from `start`, one day each.
pub open spec fn dated(start: int, fills: Seq<Fill>) -> Seq<(int, Fill)> {
    Seq::new(fills.len(), |i: int| (start + i, fills[i]))
}

/// What laying out `message` amounts to for a cursor that stands at `start`
/// and stops after `today`.
///
/// A message that is not ASCII is refused before any day is taken. Otherwise
/// the cells are laid out up to the first character without a glyph. If they
/// need a day after today, the window is exceeded; if not, and a character
/// has no glyph, that character is reported.
pub open spec fn build_outcome(
    message: Seq<char>,
    font: Map<char, Seq<bool>>,
    start: int,
    today: int,
) -> Result<Seq<(int, Fill)>, BuildError> {
    if !is_ascii_chars(message) {
        Err(BuildError::InvalidMessage)
    } else {
        let known = known_prefix(message, font);
        let fills = message_fills(message.take(known), font);
        if fills.len() > days_left(start, today) {
            Err(BuildError::WindowExceeded)
        } else if known < message.len() {
            Err(BuildError::UnknownGlyph(message[known]))
        } else {
            Ok(dated(start, fills))
        }
    }
}

/// Where the cursor stands after laying out `message`: behind the last cell
/// laid, or behind today where the window was exceeded.
pub open spec fn position_after_build(
    message: Seq<char>,
    font: Map<char, Seq<bool>>,
    start: int,
    today: int,
) -> int {
    if !is_ascii_chars(message) {
        start
    } else {
        let fills = message_fills(message.take(known_prefix(message, font)), font);
        if fills.len() > days_left(start, today) {
            start + days_left(start, today)
        } else {
            start + fills.len()
        }
    }
}

/// The grid that was built, or why none was.
pub open spec fn built(r: Result<Vec<Pixel>, BuildError>) -> Result<Seq<(int, Fill)>, BuildError> {
    match r {
        Ok(cells) => Ok(cells_view(cells@)),
        Err(e) => Err(e),
    }
}

/// `known_prefix` is the index of the first character without a glyph.
pub proof fn lemma_known_prefix(message: Seq<char>, font: Map<char, Seq<bool>>)
    ensures
        0 <= known_prefix(message, font) <= message.len(),
        all_known(message.take(known_prefix(message, font)), font),
        known_prefix(message, font) < message.len() ==> !font.contains_key(
            message[known_prefix(message, font)],
        ),
        all_known(message, font) <==> known_prefix(message, font) == message.len(),
    decreases message.len(),
{
    if message.len() == 0 || !font.contains_key(message[0]) {
    } else {
        let rest = message.skip(1);
        lemma_known_prefix(rest, font);
        let k = known_prefix(rest, font);
        assert forall|i: int| 0 <= i < k + 1 implies font.contains_key(
            #[trigger] message.take(k + 1)[i],
        ) by {
            if i > 0 {
                assert(message.take(k + 1)[i] == rest.take(k)[i - 1]);
            }
        }
        if k == rest.len() {
            assert(message.take(k + 1) =~= message);
        }
        if all_known(message, font) {
            assert forall|i: int| 0 <= i < rest.len() implies font.contains_key(
                #[trigger] rest[i],
            ) by {
                assert(rest[i] == message[i + 1]);
            }
        }
    }
}

/// The only index whose character has no glyph while all before it have one
/// is `known_prefix`.
pub proof fn lemma_first_unknown(message: Seq<char>, font: Map<char, Seq<bool>>, k: int)
    requires
        0 <= k <= message.len(),
        all_known(message.take(k), font),
        k < message.len() ==> !font.contains_key(message[k]),
    ensures
        known_prefix(message, font) == k,
{
    lemma_known_prefix(message, font);
    let known = known_prefix(message, font);
    if known < k {
        assert(message.take(k)[known] == message[known]);
    } else if k < known {
        assert(message.take(known)[k] == message[k]);
    }
}

/// Laying out one more character appends its glyph.
pub proof fn lemma_fills_step(message: Seq<char>, font: Map<char, Seq<bool>>, k: int)
    requires
        0 <= k < message.len(),
    ensures
        message_fills(message.take(k + 1), font) == message_fills(message.take(k), font)
            + glyph_fills(font[message[k]]),
        total_width(message.take(k + 1), font) == total_width(message.take(k), font) + columns(
            font[message[k]],
        ),
{
    assert(message.take(k + 1).drop_last() =~= message.take(k));
}

/// A longer part of the message never needs fewer cells.
pub proof fn lemma_fills_grow(message: Seq<char>, font: Map<char, Seq<bool>>, a: int, b: int)
    requires
        0 <= a <= b <= message.len(),
    ensures
        message_fills(message.take(a), font).len() <= message_fills(message.take(b), font).len(),
    decreases b - a,
{
    if a < b {
        lemma_fills_grow(message, font, a, b - 1);
        lemma_fills_step(message, font, b - 1);
    }
}

/// Every grid opens with the lead-in: seven background cells.
pub proof fn lemma_lead_in(message: Seq<char>, font: Map<char, Seq<bool>>)
    ensures
        message_fills(message, font).len() >= 7,
        forall|i: int| 0 <= i < 7 ==> message_fills(message, font)[i] == Fill::Background,
    decreases message.len(),
{
    if message.len() > 0 {
        lemma_lead_in(message.drop_last(), font);
    }
}

/// A grid has seven cells for the lead-in and seven for each column of each
/// glyph of the message.
pub proof fn lemma_grid_length(message: Seq<char>, font: Map<char, Seq<bool>>)
    requires
        whole_columns(message, font),
    ensures
        message_fills(message, font).len() == 7 + 7 * total_width(message, font),
    decreases message.len(),
{
    if message.len() > 0 {
        let rest = message.drop_last();
        assert forall|i: int| 0 <= i < rest.len() implies font[#[trigger] rest[i]].len() % 7
            == 0 by {
            assert(rest[i] == message[i]);
        }
        lemma_grid_length(rest, font);
        assert(font[message[message.len() - 1]].len() % 7 == 0);
    }
}

/// A message in ASCII that holds a character without a glyph is refused for
/// the first such character, provided the window has room for the cells
/// that come before it. No cell is handed on then: the outcome is the error.
pub proof fn lemma_unknown_glyph_is_reported(
    message: Seq<char>,
    font: Map<char, Seq<bool>>,
    start: int,
    today: int,
)
    requires
        is_ascii_chars(message),
        !all_known(message, font),
        message_fills(message.take(known_prefix(message, font)), font).len() <= days_left(
            start,
            today,
        ),
    ensures
        0 <= known_prefix(message, font) < message.len(),
        !font.contains_key(message[known_prefix(message, font)]),
        build_outcome(message, font, start, today) == Err::<Seq<(int, Fill)>, BuildError>(
            BuildError::UnknownGlyph(message[known_prefix(message, font)]),
        ),
{
    lemma_known_prefix(message, font);
}

/// A message in ASCII exceeds the window exactly where the last of the cells
/// that come before its first character without a glyph, or the last of all
/// its cells, would fall on a day after today. A message whose characters
/// all have glyphs is laid out exactly where seven cells for the lead-in and
/// seven for each column end on today at the latest.
pub proof fn lemma_window_exceeded(
    message: Seq<char>,
    font: Map<char, Seq<bool>>,
    start: int,
    today: int,
)
    requires
        is_ascii_chars(message),
    ensures
        build_outcome(message, font, start, today) == Err::<Seq<(int, Fill)>, BuildError>(
            BuildError::WindowExceeded,
        ) <==> start + message_fills(message.take(known_prefix(message, font)), font).len() - 1
            > today,
        all_known(message, font) && whole_columns(message, font) ==> (build_outcome(
            message,
            font,
            start,
            today,
        ) is Ok <==> start + 7 + 7 * total_width(message, font) - 1 <= today),
{
    lemma_known_prefix(message, font);
    let known = known_prefix(message, font);
    lemma_lead_in(message.take(known), font);
    if all_known(message, font) && whole_columns(message, font) {
        assert(message.take(known) =~= message);
        lemma_grid_length(message, font);
    }
}

/// The cells of a grid take consecutive days from the start of the cursor,
/// the first seven are background, and a grid of glyphs that fill whole
/// columns has seven cells for the lead-in and seven for each column.
pub proof fn lemma_grid_shape(
    message: Seq<char>,
    font: Map<char, Seq<bool>>,
    start: int,
    today: int,
)
    requires
        build_outcome(message, font, start, today) is Ok,
    ensures
        all_known(message, font),
        build_outcome(message, font, start, today)->Ok_0.len() >= 7,
        forall|i: int|
            0 <= i < 7 ==> (#[trigger] build_outcome(message, font, start, today)->Ok_0[i]).1
                == Fill::Background,
        forall|i: int|
            0 <= i < build_outcome(message, font, start, today)->Ok_0.len() ==> (
            #[trigger] build_outcome(message, font, start, today)->Ok_0[i]).0 == start + i,
        build_outcome(message, font, start, today)->Ok_0.len() > 0 ==> start + build_outcome(
            message,
            font,
            start,
            today,
        )->Ok_0.len() - 1 <= today,
        whole_columns(message, font) ==> build_outcome(message, font, start, today)->Ok_0.len()
            == 7 + 7 * total_width(message, font),
{
    lemma_known_prefix(message, font);
    assert(message.take(message.len() as int) =~= message);
    lemma_lead_in(message, font);
    if whole_columns(message, font) {
        lemma_grid_length(message, font);
    }
}

/// Lays out `message`, taking the day of each cell from `cursor`.
pub fn build(message: &str, font: &Font, cursor: &mut MovingDate) -> (r: Result<
    Vec<Pixel>,
    BuildError,
>)
    ensures
        built(r) == build_outcome(
            message@,
            font@,
            old(cursor).position(),
            old(cursor).today(),
        ),
        final(cursor).today() == old(cursor).today(),
        final(cursor).position() == position_after_build(
            message@,
            font@,
            old(cursor).position(),
            old(cursor).today(),
        ),
        r matches Ok(cells) ==> cells@.len() == 7 + 7 * total_width(message@, font@),
        r matches Ok(cells) ==> forall|i: int| 0 <= i < 7 ==> (#[trigger] cells@[i]).fill == Fill::Background,
{
    if !message.is_ascii() {
        return Err(BuildError::InvalidMessage);
    }
    let ghost start = cursor.position();
    let ghost today = cursor.today();
    let ghost text = message@;
    let ghost table = font@;
    let ghost mut fills: Seq<Fill> = Seq::empty();
    let mut cells: Vec<Pixel> = Vec::new();
    let n = message.unicode_len();
    proof {
        lemma_known_prefix(text, table);
        lemma_fills_grow(text, table, 0, known_prefix(text, table));
        lemma_lead_in(text.take(0), table);
        assert(cells_view(cells@) =~= dated(start, fills));
    }
    let mut i: usize = 0;
    while i < 7
        invariant
            start == old(cursor).position(),
            today == old(cursor).today(),
            text == message@,
            table == font@,
            i <= 7,
            fills =~= lead_in().take(i as int),
            cells_view(cells@) == dated(start, fills),
            cursor.position() == start + fills.len(),
            cursor.today() == today,
            fills.len() <= days_left(start, today),
            is_ascii_chars(text),
            message_fills(text.take(known_prefix(text, table)), table).len() >= 7,
        decreases 7 - i,
    {
        match cursor.next() {
            Ok(date) => {
                let ghost before = cells_view(cells@);
                cells.push(Pixel { date, fill: Fill::Background });
                proof {
                    fills = fills.push(Fill::Background);
                    assert(cells_view(cells@) =~= before.push((date@, Fill::Background)));
                    assert(cells_view(cells@) =~= dated(start, fills));
                }
            },
            Err(_) => {
                return Err(BuildError::WindowExceeded);
            },
        }
        i += 1;
    }
    let mut k: usize = 0;
    proof {
        assert(text.take(0).len() == 0);
        assert(fills =~= message_fills(text.take(0), table));
    }
    while k < n
        invariant
            start == old(cursor).position(),
            today == old(cursor).today(),
            n == text.len(),
            text == message@,
            table == font@,
            k <= n,
            is_ascii_chars(text),
            all_known(text.take(k as int), table),
            whole_columns(text.take(k as int), table),
            fills == message_fills(text.take(k as int), table),
            cells_view(cells@) == dated(start, fills),
            cursor.position() == start + fills.len(),
            cursor.today() == today,
            fills.len() <= days_left(start, today),
        decreases n - k,
    {
        let c = message.get_char(k);
        match font.get(c) {
            None => {
                proof {
                    lemma_first_unknown(text, table, k as int);
                }
                return Err(BuildError::UnknownGlyph(c));
            },
            Some(glyph) => {
                let bits = glyph.bits();
                let ghost base = fills;
                proof {
                    lemma_fills_step(text, table, k as int);
                    assert forall|j: int| 0 <= j < k + 1 implies table.contains_key(
                        #[trigger] text.take(k + 1)[j],
                    ) by {
                        if j < k {
                            assert(text.take(k + 1)[j] == text.take(k as int)[j]);
                        }
                    }
                    assert forall|j: int| 0 <= j < k + 1 implies table[#[trigger] text.take(
                        k + 1,
                    )[j]].len() % 7 == 0 by {
                        if j < k {
                            assert(text.take(k + 1)[j] == text.take(k as int)[j]);
                        }
                    }
                    assert(fills =~= base + glyph_fills(bits@).take(0));
                }
                let mut b: usize = 0;
                while b < bits.len()
                    invariant
                        start == old(cursor).position(),
                        today == old(cursor).today(),
                        text == message@,
                        table == font@,
                        n == text.len(),
                        k < n,
                        b <= bits@.len(),
                        is_ascii_chars(text),
                        all_known(text.take(k + 1), table),
                        fills == base + glyph_fills(bits@).take(b as int),
                        base + glyph_fills(bits@) == message_fills(text.take(k + 1), table),
                        cells_view(cells@) == dated(start, fills),
                        cursor.position() == start + fills.len(),
                        cursor.today() == today,
                        fills.len() <= days_left(start, today),
                    decreases bits@.len() - b,
                {
                    match cursor.next() {
                        Ok(date) => {
                            let fill = if bits[b] {
                                Fill::Character
                            } else {
                                Fill::Background
                            };
                            let ghost before = cells_view(cells@);
                            cells.push(Pixel { date, fill });
                            proof {
                                let grown = fills.push(fill);
                                assert(grown =~= base + glyph_fills(bits@).take(b + 1));
                                fills = base + glyph_fills(bits@).take(b + 1);
                                assert(cells_view(cells@) =~= before.push((date@, fill)));
                                assert(cells_view(cells@) =~= dated(start, fills));
                            }
                        },
                        Err(_) => {
                            proof {
                                lemma_known_prefix(text, table);
                                let known = known_prefix(text, table);
                                if known < k + 1 {
                                    assert(text.take(k + 1)[known] == text[known]);
                                }
                                lemma_fills_grow(text, table, k + 1, known);
                            }
                            return Err(BuildError::WindowExceeded);
                        },
                    }
                    b += 1;
                }
                proof {
                    assert(glyph_fills(bits@).take(b as int) =~= glyph_fills(bits@));
                }
            },
        }
        k += 1;
    }
    proof {
        assert(text.take(k as int) =~= text);
        lemma_first_unknown(text, table, k as int);
        lemma_grid_length(text, table);
        lemma_lead_in(text, table);
        assert forall|i: int| 0 <= i < 7 implies (#[trigger] cells@[i]).fill
            == Fill::Background by {
            assert(cells_view(cells@)[i] == cells@[i]@);
        }
    }
    Ok(cells)
}

} // verus!
