//! The fill policy and the scheduler.
//!
//! The policy decides for each cell of the grid whether its day receives
//! events. By default the background is filled and the message shows as the
//! days left empty; with the inversion disabled the message itself is filled.
//! Each filled day receives a number of events drawn from a range; any other
//! day receives none. By default the days between the message and today are
//! background too, and filled like it.

use crate::calendar::{days_left, window_start, CalendarDay, MovingDate, MIN_DAY};
use crate::font::Font;
use crate::grid::{build, build_outcome, built, cells_view, BuildError, Fill, Pixel};
use vstd::prelude::*;

verus! {

/// Calls fastrand's `usize` on the inclusive range from `lower` to `upper`,
/// which panics where the range is empty.
///
/// Trusted: whatever number comes back lies within the range.
#[verifier::external_body]
fn random_usize(lower: usize, upper: usize) -> (n: usize)
    requires
        lower <= upper,
    ensures
        lower <= n <= upper,
{
    fastrand::usize(lower..=upper)
}

/// The inclusive range from which the number of events of a filled day is
/// drawn.
#[derive(Clone, Copy, Debug, PartialEq, Eq, Structural)]
pub struct FillRange {
    lower: usize,
    upper: usize,
}

impl FillRange {
    #[verifier::type_invariant]
    spec fn ordered(self) -> bool {
        self.lower <= self.upper
    }

    /// The least number of events of a filled day.
    pub closed spec fn lowest(&self) -> int {
        self.lower as int
    }

    /// The greatest number of events of a filled day.
    pub closed spec fn highest(&self) -> int {
        self.upper as int
    }

    /// The range from `lower` to `upper`, unless it is empty.
    pub fn new(lower: usize, upper: usize) -> (r: Option<FillRange>)
        ensures
            r is Some <==> lower <= upper,
            r matches Some(range) ==> range.lowest() == lower && range.highest() == upper,
    {
        if lower <= upper {
            Some(FillRange { lower, upper })
        } else {
            None
        }
    }

    /// The least number of events of a filled day.
    pub fn lower(&self) -> (n: usize)
        ensures
            n == self.lowest(),
            n <= self.highest(),
    {
        proof {
            use_type_invariant(self);
        }
        self.lower
    }

    /// The greatest number of events of a filled day.
    pub fn upper(&self) -> (n: usize)
        ensures
            n == self.highest(),
            self.lowest() <= n,
    {
        proof {
            use_type_invariant(self);
        }
        self.upper
    }

    /// Draws the number of events of one filled day at random.
    pub fn draw(&self) -> (n: usize)
        ensures
            self.lowest() <= n <= self.highest(),
    {
        proof {
            use_type_invariant(self);
        }
        random_usize(self.lower, self.upper)
    }

    /// Draws the numbers of events of `days` filled days at random.
    pub fn draw_many(&self, days: usize) -> (draws: Vec<usize>)
        ensures
            draws@.len() == days,
            forall|i: int| 0 <= i < days ==> self.lowest() <= #[trigger] draws@[i] <= self.highest(),
    {
        let mut draws: Vec<usize> = Vec::new();
        let mut i: usize = 0;
        while i < days
            invariant
                i <= days,
                draws@.len() == i,
                forall|j: int| 0 <= j < i ==> self.lowest() <= #[trigger] draws@[j] <= self.highest(),
            decreases days - i,
        {
            draws.push(self.draw());
            i += 1;
        }
        draws
    }
}

/// Whether the day of a cell with the given fill receives events.
pub open spec fn should_fill(fill: Fill, disable_invert: bool) -> bool {
    (fill == Fill::Background) != disable_invert
}

/// Whether the day of a cell with the given fill receives events: the
/// background does, unless the inversion is disabled; then the message does.
pub fn fill_this_date(fill: Fill, disable_invert: bool) -> (filled: bool)
    ensures
        filled == should_fill(fill, disable_invert),
{
    let mut filled = match fill {
        Fill::Character => false,
        Fill::Background => true,
    };
    if disable_invert {
        filled = !filled;
    }
    filled
}

/// The number of events that one day is to receive: none for a day that is
/// skipped.
#[derive(Clone, Copy, Debug, PartialEq, Eq)]
pub struct Emission {
    pub date: CalendarDay,
    pub count: usize,
}

impl View for Emission {
    type V = (int, int);

    /// The day number and the number of events.
    open spec fn view(&self) -> (int, int) {
        (self.date@, self.count as int)
    }
}

/// The plan as day numbers and numbers of events.
pub open spec fn plan_view(plan: Seq<Emission>) -> Seq<(int, int)> {
    plan.map_values(|emission: Emission| emission@)
}

/// How many of the cells are filled.
pub open spec fn filled_count(cells: Seq<(int, Fill)>, disable_invert: bool) -> int
    decreases cells.len(),
{
    if cells.len() == 0 {
        0
    } else {
        filled_count(cells.drop_last(), disable_invert) + if should_fill(
            cells.last().1,
            disable_invert,
        ) {
            1int
        } else {
            0int
        }
    }
}

/// The plan for `cells` when the numbers drawn are `draws`: each filled cell
/// takes the next draw in turn, any other cell gets no event.
pub open spec fn planned(cells: Seq<(int, Fill)>, disable_invert: bool, draws: Seq<usize>) -> Seq<
    (int, int),
> {
    Seq::new(
        cells.len(),
        |i: int|
            (
                cells[i].0,
                if should_fill(cells[i].1, disable_invert) {
                    draws[filled_count(cells.take(i), disable_invert)] as int
                } else {
                    0int
                },
            ),
    )
}

/// Whether `plan` gives each day of `cells`, in order, between `lower` and
/// `upper` events where the policy fills it, and none where it does not.
pub open spec fn follows_policy(
    plan: Seq<(int, int)>,
    cells: Seq<(int, Fill)>,
    disable_invert: bool,
    lower: int,
    upper: int,
) -> bool {
    &&& plan.len() == cells.len()
    &&& forall|i: int|
        0 <= i < cells.len() ==> {
            &&& (#[trigger] plan[i]).0 == cells[i].0
            &&& should_fill(cells[i].1, disable_invert) ==> lower <= plan[i].1 <= upper
            &&& !should_fill(cells[i].1, disable_invert) ==> plan[i].1 == 0
        }
}

/// The background cells from `start` up to the day before `today`.
pub open spec fn trailing_days(start: int, today: int) -> Seq<(int, Fill)> {
    Seq::new(
        if start < today {
            (today - start) as nat
        } else {
            0nat
        },
        |i: int| (start + i, Fill::Background),
    )
}

/// The whole grid of a run that ends `today`: the message laid out from the
/// Sunday that opens the window and, unless the inversion is disabled, the
/// background from there up to the day before today.
pub open spec fn full_grid(
    message: Seq<char>,
    font: Map<char, Seq<bool>>,
    disable_invert: bool,
    today: int,
) -> Result<Seq<(int, Fill)>, BuildError> {
    let start = window_start(today);
    match build_outcome(message, font, start, today) {
        Err(e) => Err(e),
        Ok(cells) => if disable_invert {
            Ok(cells)
        } else {
            Ok(cells + trailing_days(start + cells.len(), today))
        },
    }
}

/// One more cell adds one to the count where it is filled.
pub proof fn lemma_filled_count_step(cells: Seq<(int, Fill)>, disable_invert: bool, i: int)
    requires
        0 <= i < cells.len(),
    ensures
        filled_count(cells.take(i + 1), disable_invert) == filled_count(
            cells.take(i),
            disable_invert,
        ) + if should_fill(cells[i].1, disable_invert) {
            1int
        } else {
            0int
        },
        0 <= filled_count(cells.take(i), disable_invert) <= i,
    decreases i,
{
    assert(cells.take(i + 1).drop_last() =~= cells.take(i));
    if i > 0 {
        lemma_filled_count_step(cells, disable_invert, i - 1);
    }
}

/// Among more cells no fewer are filled.
pub proof fn lemma_filled_count_grows(cells: Seq<(int, Fill)>, disable_invert: bool, a: int, b: int)
    requires
        0 <= a <= b <= cells.len(),
    ensures
        filled_count(cells.take(a), disable_invert) <= filled_count(cells.take(b), disable_invert),
        filled_count(cells.take(b), disable_invert) <= b,
    decreases b - a,
{
    if a < b {
        lemma_filled_count_grows(cells, disable_invert, a, b - 1);
        lemma_filled_count_step(cells, disable_invert, b - 1);
    } else if a > 0 {
        lemma_filled_count_step(cells, disable_invert, a - 1);
    } else {
        assert(cells.take(0).len() == 0);
    }
}

/// A plan made of draws that all lie within a range follows the policy for
/// that range.
pub proof fn lemma_planned_follows_policy(
    cells: Seq<(int, Fill)>,
    disable_invert: bool,
    draws: Seq<usize>,
    lower: int,
    upper: int,
)
    requires
        filled_count(cells, disable_invert) <= draws.len(),
        forall|j: int| 0 <= j < draws.len() ==> lower <= #[trigger] draws[j] <= upper,
    ensures
        follows_policy(planned(cells, disable_invert, draws), cells, disable_invert, lower, upper),
{
    let plan = planned(cells, disable_invert, draws);
    assert forall|i: int| 0 <= i < cells.len() implies {
        &&& (#[trigger] plan[i]).0 == cells[i].0
        &&& should_fill(cells[i].1, disable_invert) ==> lower <= plan[i].1 <= upper
        &&& !should_fill(cells[i].1, disable_invert) ==> plan[i].1 == 0
    } by {
        lemma_filled_count_step(cells, disable_invert, i);
        lemma_filled_count_grows(cells, disable_invert, i + 1, cells.len() as int);
        assert(cells.take(cells.len() as int) =~= cells);
    }
}

/// What the policy means for one cell: by default a background cell gets
/// between `lower` and `upper` events and a character cell none; with the
/// inversion disabled it is the other way round.
pub proof fn lemma_policy_by_fill(
    plan: Seq<(int, int)>,
    cells: Seq<(int, Fill)>,
    disable_invert: bool,
    lower: int,
    upper: int,
    i: int,
)
    requires
        follows_policy(plan, cells, disable_invert, lower, upper),
        0 <= i < cells.len(),
    ensures
        plan[i].0 == cells[i].0,
        !disable_invert && cells[i].1 == Fill::Background ==> lower <= plan[i].1 <= upper,
        !disable_invert && cells[i].1 == Fill::Character ==> plan[i].1 == 0,
        disable_invert && cells[i].1 == Fill::Character ==> lower <= plan[i].1 <= upper,
        disable_invert && cells[i].1 == Fill::Background ==> plan[i].1 == 0,
{
    assert(plan[i].0 == cells[i].0);
}

/// The trailing fill takes consecutive days from where the cursor stands,
/// all of them before today and all of them background: it never reaches a
/// day that the cursor would refuse.
pub proof fn lemma_trailing_days(start: int, today: int)
    ensures
        trailing_days(start, today).len() == if start < today {
            today - start
        } else {
            0
        },
        forall|i: int|
            0 <= i < trailing_days(start, today).len() ==> {
                &&& (#[trigger] trailing_days(start, today)[i]).0 == start + i
                &&& trailing_days(start, today)[i].0 < today
                &&& trailing_days(start, today)[i].1 == Fill::Background
            },
{
}

/// The days of a whole grid are consecutive from the Sunday that opens the
/// window and none lies after today. With the inversion disabled the grid
/// ends with the message; otherwise it reaches the day before today at
/// least.
pub proof fn lemma_full_grid_days(
    message: Seq<char>,
    font: Map<char, Seq<bool>>,
    disable_invert: bool,
    today: int,
)
    requires
        full_grid(message, font, disable_invert, today) is Ok,
    ensures
        build_outcome(message, font, window_start(today), today) is Ok,
        forall|i: int|
            0 <= i < full_grid(message, font, disable_invert, today)->Ok_0.len() ==> {
                &&& (#[trigger] full_grid(message, font, disable_invert, today)->Ok_0[i]).0
                    == window_start(today) + i
                &&& full_grid(message, font, disable_invert, today)->Ok_0[i].0 <= today
            },
        disable_invert ==> full_grid(message, font, disable_invert, today) == build_outcome(
            message,
            font,
            window_start(today),
            today,
        ),
        !disable_invert ==> window_start(today) + full_grid(
            message,
            font,
            disable_invert,
            today,
        )->Ok_0.len() >= today,
{
    let start = window_start(today);
    let cells = build_outcome(message, font, start, today)->Ok_0;
    crate::grid::lemma_grid_shape(message, font, start, today);
    lemma_trailing_days(start + cells.len(), today);
    let grid = full_grid(message, font, disable_invert, today)->Ok_0;
    assert forall|i: int| 0 <= i < grid.len() implies {
        &&& (#[trigger] grid[i]).0 == start + i
        &&& grid[i].0 <= today
    } by {
        if i < cells.len() {
            assert(grid[i] == cells[i]);
        } else {
            assert(grid[i] == trailing_days(start + cells.len(), today)[i - cells.len()]);
        }
    }
}

/// How many of the cells the policy fills.
pub fn count_filled(cells: &Vec<Pixel>, disable_invert: bool) -> (n: usize)
    ensures
        n == filled_count(cells_view(cells@), disable_invert),
{
    let ghost grid = cells_view(cells@);
    let mut n: usize = 0;
    let mut i: usize = 0;
    assert(grid.take(0).len() == 0);
    while i < cells.len()
        invariant
            grid == cells_view(cells@),
            i <= cells@.len(),
            n <= i,
            n == filled_count(grid.take(i as int), disable_invert),
        decreases cells@.len() - i,
    {
        proof {
            lemma_filled_count_step(grid, disable_invert, i as int);
        }
        if fill_this_date(cells[i].fill, disable_invert) {
            n += 1;
        }
        i += 1;
    }
    assert(grid.take(i as int) =~= grid);
    n
}

/// Plans the events of each cell from numbers already drawn: each filled
/// cell takes the next number in turn. There is no plan where the numbers
/// run out.
pub fn schedule_with(cells: &Vec<Pixel>, disable_invert: bool, draws: &Vec<usize>) -> (r: Option<
    Vec<Emission>,
>)
    ensures
        r is Some <==> filled_count(cells_view(cells@), disable_invert) <= draws@.len(),
        r matches Some(plan) ==> plan_view(plan@) == planned(
            cells_view(cells@),
            disable_invert,
            draws@,
        ),
{
    let ghost grid = cells_view(cells@);
    let mut plan: Vec<Emission> = Vec::new();
    let mut used: usize = 0;
    let mut i: usize = 0;
    assert(grid.take(0).len() == 0);
    assert(plan_view(plan@) =~= planned(grid, disable_invert, draws@).take(0));
    while i < cells.len()
        invariant
            grid == cells_view(cells@),
            i <= cells@.len(),
            used <= draws@.len(),
            used == filled_count(grid.take(i as int), disable_invert),
            plan_view(plan@) == planned(grid, disable_invert, draws@).take(i as int),
        decreases cells@.len() - i,
    {
        proof {
            lemma_filled_count_step(grid, disable_invert, i as int);
            lemma_filled_count_grows(grid, disable_invert, i + 1, grid.len() as int);
            assert(grid.take(grid.len() as int) =~= grid);
        }
        let cell = cells[i];
        let count = if fill_this_date(cell.fill, disable_invert) {
            if used >= draws.len() {
                return None;
            }
            let drawn = draws[used];
            used += 1;
            drawn
        } else {
            0
        };
        let ghost before = plan_view(plan@);
        plan.push(Emission { date: cell.date, count });
        proof {
            assert(plan_view(plan@) =~= before.push((cell.date@, count as int)));
            assert(plan_view(plan@) =~= planned(grid, disable_invert, draws@).take(i + 1));
        }
        i += 1;
    }
    proof {
        assert(grid.take(i as int) =~= grid);
        assert(planned(grid, disable_invert, draws@).take(i as int) =~= planned(
            grid,
            disable_invert,
            draws@,
        ));
    }
    Some(plan)
}

/// Plans the events of each cell, drawing the number for each filled cell
/// at random from `range`.
pub fn schedule(cells: &Vec<Pixel>, range: &FillRange, disable_invert: bool) -> (plan: Vec<
    Emission,
>)
    ensures
        follows_policy(
            plan_view(plan@),
            cells_view(cells@),
            disable_invert,
            range.lowest(),
            range.highest(),
        ),
{
    let needed = count_filled(cells, disable_invert);
    let draws = range.draw_many(needed);
    proof {
        lemma_planned_follows_policy(
            cells_view(cells@),
            disable_invert,
            draws@,
            range.lowest(),
            range.highest(),
        );
    }
    schedule_with(cells, disable_invert, &draws).unwrap()
}

/// Takes every day that the cursor still hands out before today, as a
/// background cell. The cursor running out of days ends the fill; it is no
/// failure here.
pub fn trailing_fill(cursor: &mut MovingDate) -> (cells: Vec<Pixel>)
    ensures
        cells_view(cells@) == trailing_days(old(cursor).position(), old(cursor).today()),
        final(cursor).today() == old(cursor).today(),
        final(cursor).position() == if old(cursor).position() <= old(cursor).today() {
            old(cursor).today() + 1
        } else {
            old(cursor).position()
        },
{
    let ghost start = cursor.position();
    let today = cursor.last_day();
    let mut cells: Vec<Pixel> = Vec::new();
    let mut open = true;
    while open
        invariant
            start == old(cursor).position(),
            today@ == old(cursor).today(),
            cursor.today() == today@,
            forall|i: int| 0 <= i < cells@.len() ==> (#[trigger] cells@[i])@ == (start + i, Fill::Background),
            open ==> cursor.position() == start + cells@.len(),
            open && cells@.len() > 0 ==> cursor.position() <= today@,
            !open ==> cells@.len() == trailing_days(start, today@).len(),
            !open ==> cursor.position() == if start <= today@ {
                today@ + 1
            } else {
                start
            },
        decreases
                if open {
                    days_left(cursor.position(), today@) + 1
                } else {
                    0
                },
    {
        match cursor.next() {
            Ok(date) => {
                if date.days() < today.days() {
                    cells.push(Pixel { date, fill: Fill::Background });
                } else {
                    open = false;
                }
            },
            Err(_) => {
                open = false;
            },
        }
    }
    assert(cells_view(cells@) =~= trailing_days(start, today@));
    cells
}

/// Lays out the whole grid of a run that ends `today`: the message, and
/// unless the inversion is disabled the background up to the day before
/// today. The caller keeps `today` far enough from the first day of the
/// calendar for the window to open within it.
pub fn render(message: &str, font: &Font, disable_invert: bool, today: CalendarDay) -> (r: Result<
    Vec<Pixel>,
    BuildError,
>)
    requires
        window_start(today@) >= MIN_DAY,
    ensures
        built(r) == full_grid(message@, font@, disable_invert, today@),
{
    let mut cursor = MovingDate::seeded(today);
    match build(message, font, &mut cursor) {
        Err(e) => Err(e),
        Ok(cells) => {
            let mut cells = cells;
            if !disable_invert {
                let ghost head = cells_view(cells@);
                let mut tail = trailing_fill(&mut cursor);
                let ghost rest = cells_view(tail@);
                cells.append(&mut tail);
                assert(cells_view(cells@) =~= head + rest);
            }
            Ok(cells)
        },
    }
}

/// Plans a whole run that ends `today`: lays out the grid and draws the
/// number of events of each filled day from `range`.
pub fn plan(
    message: &str,
    font: &Font,
    range: &FillRange,
    disable_invert: bool,
    today: CalendarDay,
) -> (r: Result<Vec<Emission>, BuildError>)
    requires
        window_start(today@) >= MIN_DAY,
    ensures
        match r {
            Ok(plan) => full_grid(message@, font@, disable_invert, today@) matches Ok(cells)
                && follows_policy(
                plan_view(plan@),
                cells,
                disable_invert,
                range.lowest(),
                range.highest(),
            ),
            Err(e) => full_grid(message@, font@, disable_invert, today@) == Err::<
                Seq<(int, Fill)>,
                BuildError,
            >(e),
        },
{
    match render(message, font, disable_invert, today) {
        Err(e) => Err(e),
        Ok(cells) => Ok(schedule(&cells, range, disable_invert)),
    }
}

} // verus!
