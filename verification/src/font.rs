//! Glyphs and the font table.
//!
//! A glyph is a bitmap of seven rows and any number of columns, kept column
//! by column: the seven rows of column 0, then the seven rows of column 1,
//! and so on. The font table is written as a TOML document in which each key
//! names a character and each value draws its glyph in seven lines of equal
//! length, `X` or `x` for a lit pixel and `-` for an unlit one.

use vstd::prelude::*;
use vstd::string::*;

verus! {

/// Number of columns of a glyph with the given bits.
pub open spec fn columns(bits: Seq<bool>) -> int {
    bits.len() as int / 7
}

/// A line without the carriage return that may precede its line feed.
pub open spec fn strip_cr(line: Seq<char>) -> Seq<char> {
    if line.len() > 0 && line.last() == '\r' {
        line.drop_last()
    } else {
        line
    }
}

/// The lines that a line feed has closed in `text`, and the characters that
/// follow the last line feed.
pub open spec fn scan_lines(text: Seq<char>) -> (Seq<Seq<char>>, Seq<char>)
    decreases text.len(),
{
    if text.len() == 0 {
        (Seq::empty(), Seq::empty())
    } else {
        let (closed, pending) = scan_lines(text.drop_last());
        if text.last() == '\n' {
            (closed.push(strip_cr(pending)), Seq::empty())
        } else {
            (closed, pending.push(text.last()))
        }
    }
}

/// The lines of `text`. A line ends at a line feed, or at a carriage return
/// followed by a line feed; neither belongs to the line. The last line needs
/// no line ending, and a text that ends in one has no empty line after it.
pub open spec fn lines_of(text: Seq<char>) -> Seq<Seq<char>> {
    let (closed, pending) = scan_lines(text);
    if pending.len() > 0 {
        closed.push(pending)
    } else {
        closed
    }
}

/// Whether `line` holds no line feed.
pub open spec fn no_line_feed(line: Seq<char>) -> bool {
    forall|j: int| 0 <= j < line.len() ==> #[trigger] line[j] != '\n'
}

/// No line holds a line feed, whether a line feed has closed it or it is
/// still open at the end of the text.
pub proof fn lemma_lines_hold_no_line_feed(text: Seq<char>)
    ensures
        forall|i: int| 0 <= i < scan_lines(text).0.len() ==> no_line_feed(#[trigger] scan_lines(text).0[i]),
        no_line_feed(scan_lines(text).1),
        forall|i: int| 0 <= i < lines_of(text).len() ==> no_line_feed(#[trigger] lines_of(text)[i]),
    decreases text.len(),
{
    if text.len() > 0 {
        lemma_lines_hold_no_line_feed(text.drop_last());
        let (closed, pending) = scan_lines(text.drop_last());
        let now = scan_lines(text);
        if text.last() == '\n' {
            assert(no_line_feed(strip_cr(pending)));
            assert forall|i: int| 0 <= i < now.0.len() implies no_line_feed(#[trigger] now.0[i]) by {
                if i < closed.len() {
                    assert(now.0[i] == closed[i]);
                }
            }
        } else {
            assert(now.0 == closed);
            assert(now.1 == pending.push(text.last()));
        }
        assert forall|i: int| 0 <= i < lines_of(text).len() implies no_line_feed(
            #[trigger] lines_of(text)[i],
        ) by {
            if i < now.0.len() {
                assert(lines_of(text)[i] == now.0[i]);
            }
        }
    }
}

/// The characters of each line.
pub open spec fn rows_view(rows: Seq<Vec<char>>) -> Seq<Seq<char>> {
    rows.map_values(|row: Vec<char>| row@)
}

/// Whether `c` is one of the symbols a glyph is drawn with.
pub open spec fn is_symbol(c: char) -> bool {
    c == '-' || c == 'X' || c == 'x'
}

/// Whether the symbol `c` stands for a lit pixel.
pub open spec fn is_lit(c: char) -> bool {
    c == 'X' || c == 'x'
}

/// Whether all rows are as long as the first.
pub open spec fn rows_even(rows: Seq<Seq<char>>) -> bool {
    forall|i: int| 0 <= i < rows.len() ==> (#[trigger] rows[i]).len() == rows[0].len()
}

/// Whether every character of every row is a symbol.
pub open spec fn rows_clean(rows: Seq<Seq<char>>) -> bool {
    forall|i: int, j: int|
        0 <= i < rows.len() && 0 <= j < rows[i].len() ==> is_symbol(#[trigger] rows[i][j])
}

/// The symbol that stands at position `k` when the rows are read column by
/// column.
pub open spec fn symbol_at(rows: Seq<Seq<char>>, k: int) -> char {
    rows[k % 7][k / 7]
}

/// Whether `bits` agrees, as far as it goes, with the rows read column by
/// column, and every symbol it covers is a valid one.
pub open spec fn bits_follow(bits: Seq<bool>, rows: Seq<Seq<char>>) -> bool {
    forall|k: int|
        0 <= k < bits.len() ==> is_symbol(#[trigger] symbol_at(rows, k)) && bits[k] == is_lit(
            symbol_at(rows, k),
        )
}

/// The bits of seven even rows, column by column.
pub open spec fn rows_bits(rows: Seq<Seq<char>>) -> Seq<bool> {
    Seq::new((7 * rows[0].len()) as nat, |k: int| is_lit(symbol_at(rows, k)))
}

/// Why a drawing is no glyph.
#[derive(Clone, Copy, Debug, PartialEq, Eq, Structural)]
pub enum GlyphError {
    /// The drawing does not have exactly seven lines.
    RowCount,
    /// Some line is longer or shorter than the first.
    RowLength,
    /// Some character is neither `X`, `x` nor `-`.
    Symbol,
}

/// What the rows of a drawing amount to: the bits of the glyph, or the first
/// defect in the order row count, row length, symbol.
pub open spec fn glyph_outcome(rows: Seq<Seq<char>>) -> Result<Seq<bool>, GlyphError> {
    if rows.len() != 7 {
        Err(GlyphError::RowCount)
    } else if !rows_even(rows) {
        Err(GlyphError::RowLength)
    } else if !rows_clean(rows) {
        Err(GlyphError::Symbol)
    } else {
        Ok(rows_bits(rows))
    }
}

/// Splits `text` into its lines.
pub fn split_lines(text: &str) -> (lines: Vec<Vec<char>>)
    ensures
        rows_view(lines@) == lines_of(text@),
{
    let n = text.unicode_len();
    let mut closed: Vec<Vec<char>> = Vec::new();
    let mut pending: Vec<char> = Vec::new();
    let mut i: usize = 0;
    assert(text@.take(0).len() == 0);
    assert(rows_view(closed@) =~= Seq::<Seq<char>>::empty());
    while i < n
        invariant
            n == text@.len(),
            i <= n,
            scan_lines(text@.take(i as int)) == (rows_view(closed@), pending@),
        decreases n - i,
    {
        let c = text.get_char(i);
        proof {
            let next = text@.take(i + 1);
            assert(next.drop_last() =~= text@.take(i as int));
            assert(next.last() == c);
        }
        if c == '\n' {
            let len = pending.len();
            if len > 0 && pending[len - 1] == '\r' {
                pending.pop();
            }
            let ghost before = rows_view(closed@);
            closed.push(pending);
            assert(rows_view(closed@) =~= before.push(pending@));
            pending = Vec::new();
        } else {
            pending.push(c);
        }
        i += 1;
    }
    assert(text@.take(n as int) =~= text@);
    if pending.len() > 0 {
        let ghost before = rows_view(closed@);
        closed.push(pending);
        assert(rows_view(closed@) =~= before.push(pending@));
    }
    closed
}

/// The bitmap of one character: seven rows, column by column.
#[derive(Debug)]
pub struct Glyph {
    width: usize,
    bits: Vec<bool>,
}

impl View for Glyph {
    type V = Seq<bool>;

    /// The bits, column by column.
    closed spec fn view(&self) -> Seq<bool> {
        self.bits@
    }
}

impl Glyph {
    #[verifier::type_invariant]
    spec fn seven_rows(self) -> bool {
        self.bits@.len() == 7 * self.width
    }

    /// The glyph with the given bits, if they fill whole columns.
    pub fn from_bits(bits: Vec<bool>) -> (r: Option<Glyph>)
        ensures
            r is Some <==> bits@.len() % 7 == 0,
            r matches Some(glyph) ==> glyph@ == bits@,
    {
        let width = bits.len() / 7;
        if bits.len() % 7 == 0 {
            Some(Glyph { width, bits })
        } else {
            None
        }
    }

    /// Reads a glyph from its drawing: seven lines of equal length, `X` or
    /// `x` for a lit pixel and `-` for an unlit one.
    pub fn parse(text: &str) -> (r: Result<Glyph, GlyphError>)
        ensures
            match r {
                Ok(glyph) => glyph_outcome(lines_of(text@)) == Ok::<Seq<bool>, GlyphError>(glyph@),
                Err(e) => glyph_outcome(lines_of(text@)) == Err::<Seq<bool>, GlyphError>(e),
            },
    {
        let rows = split_lines(text);
        let ghost drawn = rows_view(rows@);
        if rows.len() != 7 {
            return Err(GlyphError::RowCount);
        }
        let width = rows[0].len();
        let mut r: usize = 1;
        while r < 7
            invariant
                rows.len() == 7,
                drawn == rows_view(rows@),
                drawn == lines_of(text@),
                1 <= r <= 7,
                width == drawn[0].len(),
                forall|i: int| 0 <= i < r ==> (#[trigger] drawn[i]).len() == width,
            decreases 7 - r,
        {
            if rows[r].len() != width {
                assert(drawn[r as int].len() != drawn[0].len());
                return Err(GlyphError::RowLength);
            }
            r += 1;
        }
        assert(rows_even(drawn));
        let mut bits: Vec<bool> = Vec::new();
        let mut column: usize = 0;
        while column < width
            invariant
                rows.len() == 7,
                drawn == rows_view(rows@),
                drawn == lines_of(text@),
                rows_even(drawn),
                width == drawn[0].len(),
                column <= width,
                bits@.len() == 7 * column,
                bits_follow(bits@, drawn),
            decreases width - column,
        {
            let mut row: usize = 0;
            while row < 7
                invariant
                    rows.len() == 7,
                    drawn == rows_view(rows@),
                    drawn == lines_of(text@),
                    rows_even(drawn),
                    width == drawn[0].len(),
                    column < width,
                    row <= 7,
                    bits@.len() == 7 * column + row,
                    bits_follow(bits@, drawn),
                decreases 7 - row,
            {
                assert(drawn[row as int].len() == width);
                let c = rows[row][column];
                proof {
                    let k = 7 * column + row;
                    assert(k % 7 == row && k / 7 == column);
                    assert(c == symbol_at(drawn, k));
                }
                if c == 'X' || c == 'x' {
                    bits.push(true);
                } else if c == '-' {
                    bits.push(false);
                } else {
                    assert(!is_symbol(drawn[row as int][column as int]));
                    return Err(GlyphError::Symbol);
                }
                row += 1;
            }
            column += 1;
        }
        proof {
            assert forall|i: int, j: int| 0 <= i < drawn.len() && 0 <= j < drawn[i].len() implies is_symbol(
                #[trigger] drawn[i][j],
            ) by {
                let k = 7 * j + i;
                assert(drawn[i].len() == width);
                assert(k % 7 == i && k / 7 == j);
                assert(is_symbol(symbol_at(drawn, k)));
            }
            assert(bits@ =~= rows_bits(drawn));
        }
        Ok(Glyph { width, bits })
    }

    /// Number of columns.
    pub fn width(&self) -> (w: usize)
        ensures
            w == columns(self@),
            self@.len() == 7 * w,
    {
        proof {
            use_type_invariant(self);
        }
        self.width
    }

    /// The bits, column by column: always seven for each column.
    pub fn bits(&self) -> (bits: &Vec<bool>)
        ensures
            bits@ == self@,
            bits@.len() % 7 == 0,
    {
        proof {
            use_type_invariant(self);
        }
        &self.bits
    }
}

/// What a TOML document holds under one of its top-level keys: the key, and
/// the text of the value where that value is a string.
#[derive(Debug)]
pub struct TableEntry {
    pub key: String,
    pub text: Option<String>,
}

impl View for TableEntry {
    type V = (Seq<char>, Option<Seq<char>>);

    open spec fn view(&self) -> (Seq<char>, Option<Seq<char>>) {
        (
            self.key@,
            match self.text {
                Some(text) => Some(text@),
                None => None,
            },
        )
    }
}

/// The entries as plain values.
pub open spec fn entries_view(entries: Seq<TableEntry>) -> Seq<(Seq<char>, Option<Seq<char>>)> {
    entries.map_values(|entry: TableEntry| entry@)
}

#[verifier::external_type_specification]
#[verifier::external_body]
pub struct ExTomlError(toml::de::Error);

/// The top-level table of the TOML document `text`, entry by entry in the
/// order in which the toml crate walks it, or `None` where `text` is no TOML
/// document.
pub uninterp spec fn toml_table(text: Seq<char>) -> Option<Seq<(Seq<char>, Option<Seq<char>>)>>;

/// Calls the toml crate's `from_str` for a `toml::value::Table` and walks the
/// table it returns.
///
/// Trusted: the result depends on `text` alone. It is an error exactly where
/// `toml_table` is `None`, and otherwise holds the entries that `toml_table`
/// names, each value that is a string with its text.
#[verifier::external_body]
fn parse_toml_table(text: &str) -> (r: Result<Vec<TableEntry>, toml::de::Error>)
    ensures
        match r {
            Ok(entries) => toml_table(text@) == Some(entries_view(entries@)),
            Err(_) => toml_table(text@) is None,
        },
{
    let table = toml::from_str::<toml::value::Table>(text)?;
    let mut entries = Vec::new();
    for (key, value) in table {
        let text = match value {
            toml::Value::String(text) => Some(text),
            _ => None,
        };
        entries.push(TableEntry { key, text });
    }
    Ok(entries)
}

/// Why a font table could not be loaded.
#[derive(Clone, Copy, Debug, PartialEq, Eq, Structural)]
pub enum FontError {
    /// The text is no TOML document.
    Syntax,
    /// An entry has the empty key, which names no character.
    EmptyKey,
    /// The value of the entry for this character is no string.
    NotText(char),
    /// The drawing of this character is no glyph.
    BadGlyph(char, GlyphError),
}

/// What one entry amounts to: the character it is for, which is the first of
/// its key, and the bits of its glyph.
pub open spec fn entry_outcome(entry: (Seq<char>, Option<Seq<char>>)) -> Result<
    (char, Seq<bool>),
    FontError,
> {
    if entry.0.len() == 0 {
        Err(FontError::EmptyKey)
    } else {
        match entry.1 {
            None => Err(FontError::NotText(entry.0[0])),
            Some(text) => match glyph_outcome(lines_of(text)) {
                Ok(bits) => Ok((entry.0[0], bits)),
                Err(e) => Err(FontError::BadGlyph(entry.0[0], e)),
            },
        }
    }
}

/// What the entries amount to: the table that maps each character to its
/// glyph, a later entry for a character replacing an earlier one, or the
/// defect of the first entry that has one.
pub open spec fn table_outcome(entries: Seq<(Seq<char>, Option<Seq<char>>)>) -> Result<
    Map<char, Seq<bool>>,
    FontError,
>
    decreases entries.len(),
{
    if entries.len() == 0 {
        Ok(Map::empty())
    } else {
        match table_outcome(entries.drop_last()) {
            Err(e) => Err(e),
            Ok(table) => match entry_outcome(entries.last()) {
                Err(e) => Err(e),
                Ok((symbol, bits)) => Ok(table.insert(symbol, bits)),
            },
        }
    }
}

/// What a font table written as a TOML document amounts to.
pub open spec fn font_outcome(text: Seq<char>) -> Result<Map<char, Seq<bool>>, FontError> {
    match toml_table(text) {
        None => Err(FontError::Syntax),
        Some(entries) => table_outcome(entries),
    }
}

/// A defect among the first entries is the outcome of the whole table.
pub proof fn lemma_first_defect_decides(
    entries: Seq<(Seq<char>, Option<Seq<char>>)>,
    n: int,
)
    requires
        0 <= n <= entries.len(),
        table_outcome(entries.take(n)) is Err,
    ensures
        table_outcome(entries) == table_outcome(entries.take(n)),
    decreases entries.len(),
{
    if n == entries.len() {
        assert(entries.take(n) =~= entries);
    } else {
        assert(entries.drop_last().take(n) =~= entries.take(n));
        lemma_first_defect_decides(entries.drop_last(), n);
    }
}

#[derive(Debug)]
struct Slot {
    symbol: char,
    glyph: Glyph,
}

spec fn table_of(slots: Seq<Slot>) -> Map<char, Seq<bool>>
    decreases slots.len(),
{
    if slots.len() == 0 {
        Map::empty()
    } else {
        table_of(slots.drop_last()).insert(slots.last().symbol, slots.last().glyph@)
    }
}

proof fn lemma_table_found(slots: Seq<Slot>, symbol: char, i: int)
    requires
        0 <= i < slots.len(),
        slots[i].symbol == symbol,
        forall|j: int| i < j < slots.len() ==> (#[trigger] slots[j]).symbol != symbol,
    ensures
        table_of(slots).contains_key(symbol),
        table_of(slots)[symbol] == slots[i].glyph@,
    decreases slots.len(),
{
    if i < slots.len() - 1 {
        let rest = slots.drop_last();
        assert(slots.last().symbol != symbol);
        assert forall|j: int| i < j < rest.len() implies (#[trigger] rest[j]).symbol != symbol by {
            assert(rest[j] == slots[j]);
        }
        lemma_table_found(rest, symbol, i);
    }
}

proof fn lemma_table_missing(slots: Seq<Slot>, symbol: char)
    requires
        forall|j: int| 0 <= j < slots.len() ==> (#[trigger] slots[j]).symbol != symbol,
    ensures
        !table_of(slots).contains_key(symbol),
    decreases slots.len(),
{
    if slots.len() > 0 {
        let rest = slots.drop_last();
        assert(slots.last().symbol != symbol);
        assert forall|j: int| 0 <= j < rest.len() implies (#[trigger] rest[j]).symbol != symbol by {
            assert(rest[j] == slots[j]);
        }
        lemma_table_missing(rest, symbol);
    }
}

/// The font table: the glyph of each character that has one.
#[derive(Debug)]
pub struct Font {
    slots: Vec<Slot>,
}

impl View for Font {
    type V = Map<char, Seq<bool>>;

    /// The bits of each character's glyph.
    closed spec fn view(&self) -> Map<char, Seq<bool>> {
        table_of(self.slots@)
    }
}

/// The table that was loaded, or why none was.
pub open spec fn loaded(r: Result<Font, FontError>) -> Result<Map<char, Seq<bool>>, FontError> {
    match r {
        Ok(font) => Ok(font@),
        Err(e) => Err(e),
    }
}

impl Font {
    /// The table without any glyph.
    pub fn new() -> (font: Font)
        ensures
            font@ == Map::<char, Seq<bool>>::empty(),
    {
        Font { slots: Vec::new() }
    }

    /// Gives `symbol` the glyph `glyph`, in place of the one it had, if any.
    pub fn insert(&mut self, symbol: char, glyph: Glyph)
        ensures
            final(self)@ == old(self)@.insert(symbol, glyph@),
    {
        self.slots.push(Slot { symbol, glyph });
        assert(self.slots@.drop_last() =~= old(self).slots@);
    }

    /// The glyph of `symbol`, if the table has one.
    pub fn get(&self, symbol: char) -> (r: Option<&Glyph>)
        ensures
            r is Some <==> self@.contains_key(symbol),
            r matches Some(glyph) ==> glyph@ == self@[symbol],
    {
        let mut i = self.slots.len();
        while i > 0
            invariant
                i <= self.slots@.len(),
                forall|j: int| i <= j < self.slots@.len() ==> (#[trigger] self.slots@[j]).symbol != symbol,
            decreases i,
        {
            i -= 1;
            if self.slots[i].symbol == symbol {
                proof {
                    lemma_table_found(self.slots@, symbol, i as int);
                }
                return Some(&self.slots[i].glyph);
            }
        }
        proof {
            lemma_table_missing(self.slots@, symbol);
        }
        None
    }

    /// Builds the table from the entries of a document, in their order.
    pub fn from_entries(entries: &Vec<TableEntry>) -> (r: Result<Font, FontError>)
        ensures
            loaded(r) == table_outcome(entries_view(entries@)),
    {
        let ghost all = entries_view(entries@);
        let mut font = Font::new();
        let mut i: usize = 0;
        assert(all.take(0).len() == 0);
        while i < entries.len()
            invariant
                i <= entries@.len(),
                all == entries_view(entries@),
                table_outcome(all.take(i as int)) == Ok::<Map<char, Seq<bool>>, FontError>(font@),
            decreases entries@.len() - i,
        {
            let entry = &entries[i];
            proof {
                let upto = all.take(i + 1);
                assert(upto.drop_last() =~= all.take(i as int));
                assert(upto.last() == entry@);
            }
            let key = entry.key.as_str();
            if key.unicode_len() == 0 {
                proof {
                    lemma_first_defect_decides(all, i + 1);
                }
                return Err(FontError::EmptyKey);
            }
            let symbol = key.get_char(0);
            match &entry.text {
                None => {
                    proof {
                        lemma_first_defect_decides(all, i + 1);
                    }
                    return Err(FontError::NotText(symbol));
                },
                Some(text) => match Glyph::parse(text.as_str()) {
                    Ok(glyph) => {
                        font.insert(symbol, glyph);
                    },
                    Err(e) => {
                        proof {
                            lemma_first_defect_decides(all, i + 1);
                        }
                        return Err(FontError::BadGlyph(symbol, e));
                    },
                },
            }
            i += 1;
        }
        assert(all.take(i as int) =~= all);
        Ok(font)
    }

    /// Loads a font table written as a TOML document: each key names a
    /// character by its first letter, each value draws the glyph.
    pub fn parse(text: &str) -> (r: Result<Font, FontError>)
        ensures
            loaded(r) == font_outcome(text@),
    {
        match parse_toml_table(text) {
            Ok(entries) => Font::from_entries(&entries),
            Err(_) => Err(FontError::Syntax),
        }
    }
}

} // verus!
