//! Column layout for the unit table.
//!
//! The table must stay readable at 80 columns, so it sheds columns rather
//! than wrapping. Columns are fitted in strict priority order and the first
//! one that does not fit ends the row -- no lower-priority column sneaks into
//! a gap, which would make the layout jump about as the terminal is resized.
//!
//! The name column takes whatever is left over, because a truncated unit name
//! is the one thing that makes a row useless.

use crate::text;
use crate::unit::escape;
use vstd::prelude::*;

verus! {

broadcast use vstd::string::group_string_axioms;

/// A column of the table, in the order it is offered space.
#[derive(Debug, Clone, Copy, PartialEq, Eq, Structural)]
pub enum Col {
    /// Always present.
    Name,
    /// The last run's outcome. The whole point of the table, so it goes first.
    Last,
    /// The next elapse.
    Next,
    /// `ActiveState`.
    State,
    /// `OnCalendar=` summary, or the description when there is no schedule.
    Schedule,
    /// `UnitFileState`.
    Enabled,
    /// timer / service / mount.
    Kind,
}

impl Col {
    /// The heading of a column.
    pub open spec fn title_of(self) -> Seq<char> {
        match self {
            Col::Name => "UNIT"@,
            Col::Last => "LAST"@,
            Col::Next => "NEXT"@,
            Col::State => "STATE"@,
            Col::Schedule => "SCHEDULE"@,
            Col::Enabled => "ENABLED"@,
            Col::Kind => "KIND"@,
        }
    }

    /// The narrowest a column is worth showing at.
    pub open spec fn least(self) -> int {
        match self {
            Col::Name => 8,
            Col::Last => 8,
            Col::Next => 9,
            Col::State => 8,
            Col::Schedule => 12,
            Col::Enabled => 8,
            Col::Kind => 9,
        }
    }

    pub fn title(self) -> (r: &'static str)
        ensures
            r@ == self.title_of(),
    {
        match self {
            Col::Name => "UNIT",
            Col::Last => "LAST",
            Col::Next => "NEXT",
            Col::State => "STATE",
            Col::Schedule => "SCHEDULE",
            Col::Enabled => "ENABLED",
            Col::Kind => "KIND",
        }
    }

    /// The narrowest this column is worth showing at.
    pub fn min_width(self) -> (r: usize)
        ensures
            r == self.least(),
    {
        match self {
            Col::Name => 8,
            Col::Last => 8,
            Col::Next => 9,
            Col::State => 8,
            Col::Schedule => 12,
            Col::Enabled => 8,
            Col::Kind => 9,
        }
    }
}

/// Everything after the name, in the order it earns space.
pub open spec fn optional_of() -> Seq<Col> {
    seq![Col::Last, Col::Next, Col::State, Col::Schedule, Col::Enabled, Col::Kind]
}

/// Everything after the name, in the order it earns space.
pub fn optional() -> (r: Vec<Col>)
    ensures
        r@ == optional_of(),
{
    vec![Col::Last, Col::Next, Col::State, Col::Schedule, Col::Enabled, Col::Kind]
}

/// The three-character selection marker every row carries.
pub const MARKER_WIDTH: usize = 3;

/// Widest the name column is allowed to grow before spare space goes to the
/// schedule instead.
pub const NAME_MAX: usize = 40;

/// A column and its width.
pub type Slot = (Col, usize);

/// A fitted set of columns and their widths.
#[derive(Debug)]
pub struct Plan {
    pub cols: Vec<Slot>,
    /// The frame width the plan was fitted to.
    pub width: usize,
}

/// The widths of some columns, added up.
pub open spec fn widths_of(cols: Seq<Slot>) -> int
    decreases cols.len(),
{
    if cols.len() == 0 {
        0
    } else {
        widths_of(cols.drop_last()) + cols.last().1
    }
}

/// The blanks between some columns.
pub open spec fn gaps_of(cols: Seq<Slot>) -> int {
    if cols.len() > 0 {
        cols.len() - 1
    } else {
        0
    }
}

/// The width a row of these columns takes in a frame of `width`: the marker,
/// the columns and a blank between any two, as far as the frame goes.
pub open spec fn total_of(cols: Seq<Slot>, width: int) -> int {
    let all = MARKER_WIDTH + widths_of(cols) + gaps_of(cols);
    if all < width {
        all
    } else {
        width
    }
}

/// Whether a column is among some columns.
pub open spec fn shows(cols: Seq<Slot>, c: Col) -> bool {
    exists|i: int| 0 <= i < cols.len() && (#[trigger] cols[i]).0 == c
}

impl Plan {
    /// Whether the widths can be added up.
    pub open spec fn adds_up(&self) -> bool {
        MARKER_WIDTH + widths_of(self.cols@) + gaps_of(self.cols@) <= usize::MAX
    }

    pub fn has(&self, c: Col) -> (r: bool)
        ensures
            r == shows(self.cols@, c),
    {
        let mut i: usize = 0;
        while i < self.cols.len()
            invariant
                i <= self.cols@.len(),
                forall|k: int| 0 <= k < i ==> (#[trigger] self.cols@[k]).0 != c,
            decreases self.cols@.len() - i,
        {
            if self.cols[i].0 == c {
                return true;
            }
            i += 1;
        }
        false
    }

    /// The width of a column; none where it is not shown.
    pub fn width_of(&self, c: Col) -> (r: usize)
        ensures
            r == width_in(self.cols@, c),
    {
        let mut i: usize = 0;
        assert(self.cols@.skip(0) =~= self.cols@);
        while i < self.cols.len()
            invariant
                i <= self.cols@.len(),
                width_in(self.cols@, c) == width_in(self.cols@.skip(i as int), c),
            decreases self.cols@.len() - i,
        {
            assert(self.cols@.skip(i as int)[0] == self.cols@[i as int]);
            if self.cols[i].0 == c {
                return self.cols[i].1;
            }
            assert(self.cols@.skip(i as int).skip(1) =~= self.cols@.skip(i + 1));
            i += 1;
        }
        0
    }

    /// The width the rendered row occupies, marker included. Clamped to the
    /// frame, so a frame too narrow even for the marker still yields a row
    /// that fits.
    pub fn total(&self) -> (r: usize)
        requires
            self.adds_up(),
        ensures
            r == total_of(self.cols@, self.width as int),
    {
        let mut sum: usize = 0;
        let mut i: usize = 0;
        assert(self.cols@.take(0) =~= seq![]);
        while i < self.cols.len()
            invariant
                i <= self.cols@.len(),
                self.adds_up(),
                sum == widths_of(self.cols@.take(i as int)),
            decreases self.cols@.len() - i,
        {
            proof {
                assert(self.cols@.take(i + 1).drop_last() =~= self.cols@.take(i as int));
                lemma_widths_part(self.cols@, i + 1);
            }
            sum += self.cols[i].1;
            i += 1;
        }
        assert(self.cols@.take(self.cols@.len() as int) =~= self.cols@);
        let gaps: usize = if self.cols.len() > 0 {
            self.cols.len() - 1
        } else {
            0
        };
        let all: usize = MARKER_WIDTH + sum + gaps;
        if all < self.width {
            all
        } else {
            self.width
        }
    }
}

/// The width of the first column of that kind.
pub open spec fn width_in(cols: Seq<Slot>, c: Col) -> int
    decreases cols.len(),
{
    if cols.len() == 0 {
        0
    } else if cols[0].0 == c {
        cols[0].1 as int
    } else {
        width_in(cols.skip(1), c)
    }
}

proof fn lemma_widths_part(cols: Seq<Slot>, n: int)
    requires
        0 <= n <= cols.len(),
    ensures
        0 <= widths_of(cols.take(n)) <= widths_of(cols),
    decreases cols.len() - n,
{
    if n < cols.len() {
        lemma_widths_part(cols, n + 1);
        assert(cols.take(n + 1).drop_last() =~= cols.take(n));
        lemma_widths_least(cols.take(n));
    } else {
        assert(cols.take(n) =~= cols);
        lemma_widths_least(cols);
    }
}

proof fn lemma_widths_least(cols: Seq<Slot>)
    ensures
        0 <= widths_of(cols),
    decreases cols.len(),
{
    if cols.len() > 0 {
        lemma_widths_least(cols.drop_last());
    }
}

// ---------------------------------------------------------------------------
// Fitting
// ---------------------------------------------------------------------------

/// The room there is beside the marker.
pub open spec fn room_of(width: int) -> int {
    if width > MARKER_WIDTH {
        width - MARKER_WIDTH
    } else {
        0
    }
}

/// The name's opening bid: a third of the terminal, within reason, and never
/// more than there is room for once the marker is paid for.
pub open spec fn bid_of(width: int) -> int {
    let third = width / 3;
    let want = if third < 8 {
        8
    } else if third > 24 {
        24
    } else {
        third
    };
    if want < room_of(width) {
        want
    } else {
        room_of(width)
    }
}

/// How many of the optional columns, from the `i`th on, fit into `spare`:
/// each costs its width and a blank, and the first that does not fit ends the
/// row.
pub open spec fn fitting(spare: int, i: int) -> int
    decreases 6 - i,
{
    if i < 0 || i >= 6 {
        0
    } else {
        let cost = optional_of()[i].least() + 1;
        if spare < cost {
            0
        } else {
            1 + fitting(spare - cost, i + 1)
        }
    }
}

/// What is left of `spare` behind the columns that fit.
pub open spec fn left_over(spare: int, i: int) -> int
    decreases 6 - i,
{
    if i < 0 || i >= 6 {
        spare
    } else {
        let cost = optional_of()[i].least() + 1;
        if spare < cost {
            spare
        } else {
            left_over(spare - cost, i + 1)
        }
    }
}

/// How much of the left-over room the name takes.
pub open spec fn name_growth(width: int) -> int {
    let left = left_over(room_of(width) - bid_of(width), 0);
    if left < NAME_MAX - bid_of(width) {
        left
    } else {
        NAME_MAX - bid_of(width)
    }
}

/// The width of the name column: its bid, what it grows by, and where there
/// is no schedule column all that is left.
pub open spec fn name_width(width: int) -> int {
    let left = left_over(room_of(width) - bid_of(width), 0) - name_growth(width);
    bid_of(width) + name_growth(width) + if shown_of(width) >= 4 {
        0
    } else {
        left
    }
}

/// How many optional columns a frame shows.
pub open spec fn shown_of(width: int) -> int {
    fitting(room_of(width) - bid_of(width), 0)
}

/// The width of the schedule column, where it is shown.
pub open spec fn schedule_width(width: int) -> int {
    12 + left_over(room_of(width) - bid_of(width), 0) - name_growth(width)
}

/// The columns of a frame.
pub open spec fn plan_of(width: int) -> Seq<Slot> {
    Seq::new(
        (1 + shown_of(width)) as nat,
        |i: int|
            if i == 0 {
                (Col::Name, name_width(width) as usize)
            } else if i == 4 {
                (Col::Schedule, schedule_width(width) as usize)
            } else {
                (optional_of()[i - 1], optional_of()[i - 1].least() as usize)
            },
    )
}

proof fn lemma_fitting(spare: int, i: int)
    requires
        0 <= i <= 6,
        spare >= 0,
    ensures
        0 <= fitting(spare, i) <= 6 - i,
        0 <= left_over(spare, i) <= spare,
    decreases 6 - i,
{
    if i < 6 {
        let cost = optional_of()[i].least() + 1;
        if spare >= cost {
            lemma_fitting(spare - cost, i + 1);
        }
    }
}

/// Fit the table to `width`.
pub fn plan(width: usize) -> (r: Plan)
    ensures
        r.cols@ == plan_of(width as int),
        r.width == width,
        r.adds_up(),
{
    let room: usize = if width > MARKER_WIDTH {
        width - MARKER_WIDTH
    } else {
        0
    };
    let third: usize = width / 3;
    let want: usize = if third < 8 {
        8
    } else if third > 24 {
        24
    } else {
        third
    };
    let name: usize = if want < room {
        want
    } else {
        room
    };
    let ghost start = room - name;
    let order = optional();
    let mut spare: usize = room - name;
    let mut n: usize = 0;
    proof {
        lemma_fitting(start, 0);
    }
    while n < 6 && spare >= order[n].min_width() + 1
        invariant
            order@ == optional_of(),
            n <= 6,
            n + fitting(spare as int, n as int) == fitting(start, 0),
            left_over(spare as int, n as int) == left_over(start, 0),
        decreases 6 - n,
    {
        let cost: usize = order[n].min_width() + 1;
        spare -= cost;
        n += 1;
    }
    assert(n == fitting(start, 0));
    assert(spare == left_over(start, 0));
    proof {
        reveal_with_fuel(fitting, 7);
        reveal_with_fuel(left_over, 7);
        assert(n >= 4 ==> spare + 41 <= start);
    }
    let most: usize = NAME_MAX - name;
    let grow: usize = if spare < most {
        spare
    } else {
        most
    };
    let rest: usize = spare - grow;
    let mut cols: Vec<Slot> = Vec::new();
    let wide: usize = if n >= 4 {
        name + grow
    } else {
        name + grow + rest
    };
    cols.push((Col::Name, wide));
    let mut i: usize = 0;
    assert(cols@ =~= plan_of(width as int).take(1));
    while i < n
        invariant
            i <= n <= 6,
            n == shown_of(width as int),
            rest + 12 == schedule_width(width as int),
            n >= 4 ==> rest + 12 <= width,
            order@ == optional_of(),
            cols@ == plan_of(width as int).take(i + 1),
        decreases n - i,
    {
        let c = order[i];
        let w: usize = if i == 3 {
            12 + rest
        } else {
            c.min_width()
        };
        cols.push((c, w));
        assert(cols@ =~= plan_of(width as int).take(i + 2));
        i += 1;
    }
    assert(cols@ =~= plan_of(width as int));
    proof {
        lemma_plan_adds_up(width as int);
    }
    Plan { cols, width }
}

/// The columns, with their blanks, take exactly the room there is.
proof fn lemma_plan_adds_up(width: int)
    requires
        0 <= width <= usize::MAX,
    ensures
        widths_of(plan_of(width)) + plan_of(width).len() - 1 == room_of(width),
        1 <= plan_of(width).len() <= 7,
{
    let spare = room_of(width) - bid_of(width);
    lemma_fitting(spare, 0);
    let p = plan_of(width);
    let n = shown_of(width);
    reveal_with_fuel(fitting, 7);
    reveal_with_fuel(left_over, 7);
    assert(0 <= name_growth(width) <= left_over(spare, 0));
    assert(0 <= name_width(width) <= width);
    assert(n >= 4 ==> left_over(spare, 0) + 41 <= spare);
    assert(n >= 4 ==> 12 <= schedule_width(width) <= width);
    assert(p.take(0) =~= seq![]);
    assert(p.take(1).drop_last() =~= p.take(0));
    assert(p.take(1).last() == (Col::Name, name_width(width) as usize));
    assert(widths_of(p.take(0)) == 0);
    assert(widths_of(p.take(1)) == name_width(width));
    if n >= 1 {
        assert(p.take(2).drop_last() =~= p.take(1));
        assert(widths_of(p.take(2)) == name_width(width) + 8);
    }
    if n >= 2 {
        assert(p.take(3).drop_last() =~= p.take(2));
        assert(widths_of(p.take(3)) == name_width(width) + 17);
    }
    if n >= 3 {
        assert(p.take(4).drop_last() =~= p.take(3));
        assert(widths_of(p.take(4)) == name_width(width) + 25);
    }
    if n >= 4 {
        assert(p.take(5).drop_last() =~= p.take(4));
        assert(widths_of(p.take(5)) == name_width(width) + 25 + schedule_width(width));
    }
    if n >= 5 {
        assert(p.take(6).drop_last() =~= p.take(5));
        assert(widths_of(p.take(6)) == name_width(width) + 33 + schedule_width(width));
    }
    if n >= 6 {
        assert(p.take(7).drop_last() =~= p.take(6));
        assert(widths_of(p.take(7)) == name_width(width) + 42 + schedule_width(width));
    }
    assert(p.take(n + 1) =~= p);
}

// ---------------------------------------------------------------------------
// Rows
// ---------------------------------------------------------------------------

/// The cell values for one row, already stringified.
#[derive(Debug)]
pub struct Cells {
    pub name: String,
    pub last: String,
    pub next: String,
    pub state: String,
    pub schedule: String,
    pub enabled: String,
    pub kind: String,
}

impl Default for Cells {
    fn default() -> (r: Cells)
        ensures
            forall|c: Col| #[trigger] r.cell(c) == Seq::<char>::empty(),
    {
        let r = Cells {
            name: String::new(),
            last: String::new(),
            next: String::new(),
            state: String::new(),
            schedule: String::new(),
            enabled: String::new(),
            kind: String::new(),
        };
        assert forall|c: Col| #[trigger] r.cell(c) == Seq::<char>::empty() by {
            assert(r.cell(c) =~= Seq::<char>::empty());
        }
        r
    }
}

impl Cells {
    /// The value in a column.
    pub open spec fn cell(&self, c: Col) -> Seq<char> {
        match c {
            Col::Name => self.name@,
            Col::Last => self.last@,
            Col::Next => self.next@,
            Col::State => self.state@,
            Col::Schedule => self.schedule@,
            Col::Enabled => self.enabled@,
            Col::Kind => self.kind@,
        }
    }

    fn get(&self, c: Col) -> (r: &str)
        ensures
            r@ == self.cell(c),
    {
        match c {
            Col::Name => self.name.as_str(),
            Col::Last => self.last.as_str(),
            Col::Next => self.next.as_str(),
            Col::State => self.state.as_str(),
            Col::Schedule => self.schedule.as_str(),
            Col::Enabled => self.enabled.as_str(),
            Col::Kind => self.kind.as_str(),
        }
    }
}

/// The marker and the first `n` cells, each cut to its column, with a blank
/// before each but the first. All but the last column are filled up.
pub open spec fn laid_out(cols: Seq<Slot>, n: int, marker: char, cells: Cells) -> Seq<char>
    decreases n,
{
    if n <= 0 {
        seq![' ', marker, ' ']
    } else {
        let before = laid_out(cols, n - 1, marker, cells);
        let gap: Seq<char> = if n > 1 {
            seq![' ']
        } else {
            seq![]
        };
        let w = cols[n - 1].1 as int;
        let cut = escape::clip_of(cells.cell(cols[n - 1].0), w);
        before + gap + if n == cols.len() {
            cut
        } else {
            text::pad_right_of(cut, w)
        }
    }
}

/// One row of the table.
pub open spec fn row_of(cols: Seq<Slot>, width: int, marker: char, cells: Cells) -> Seq<char> {
    escape::clip_of(laid_out(cols, cols.len() as int, marker, cells), total_of(cols, width))
}

/// Render one row: the marker, then each cell padded to its column.
///
/// The result is clipped to the plan's total width, so it can never overflow
/// the area it was fitted for.
pub fn row(plan: &Plan, marker: char, cells: &Cells) -> (r: String)
    requires
        plan.adds_up(),
    ensures
        r@ == row_of(plan.cols@, plan.width as int, marker, *cells),
        r@.len() <= plan.width,
{
    let mut out = String::new();
    out.push(' ');
    out.push(marker);
    out.push(' ');
    assert(out@ =~= seq![' ', marker, ' ']);
    let n: usize = plan.cols.len();
    let mut i: usize = 0;
    while i < n
        invariant
            n == plan.cols@.len(),
            i <= n,
            out@ == laid_out(plan.cols@, i as int, marker, *cells),
        decreases n - i,
    {
        let ghost before = out@;
        if i > 0 {
            out.push(' ');
        }
        let c = plan.cols[i].0;
        let w: usize = plan.cols[i].1;
        let cut = escape::clip(cells.get(c), w);
        if i == n - 1 {
            out.push_str(cut.as_str());
        } else {
            let padded = text::pad_right(cut.as_str(), w);
            out.push_str(padded.as_str());
        }
        assert(out@ =~= laid_out(plan.cols@, i + 1, marker, *cells));
        i += 1;
    }
    escape::clip(out.as_str(), plan.total())
}

/// The header row, in the same columns.
pub fn header(plan: &Plan) -> (r: String)
    requires
        plan.adds_up(),
    ensures
        exists|titles: Cells|
            (forall|c: Col| #[trigger] titles.cell(c) == c.title_of()) && r@ == #[trigger] row_of(
                plan.cols@,
                plan.width as int,
                ' ',
                titles,
            ),
        r@.len() <= plan.width,
{
    let cells = Cells {
        name: Col::Name.title().to_owned(),
        last: Col::Last.title().to_owned(),
        next: Col::Next.title().to_owned(),
        state: Col::State.title().to_owned(),
        schedule: Col::Schedule.title().to_owned(),
        enabled: Col::Enabled.title().to_owned(),
        kind: Col::Kind.title().to_owned(),
    };
    row(plan, ' ', &cells)
}

// ---------------------------------------------------------------------------
// What the layout promises
// ---------------------------------------------------------------------------

/// Nothing the table renders is wider than the space it was given, at any
/// width, and the name is always shown.
pub proof fn law_rows_fit(width: usize, marker: char, cells: Cells)
    ensures
        total_of(plan_of(width as int), width as int) <= width,
        row_of(plan_of(width as int), width as int, marker, cells).len() <= width,
        shows(plan_of(width as int), Col::Name),
        forall|i: int|
            0 <= i < plan_of(width as int).len() ==> (#[trigger] plan_of(width as int)[i]).1
                <= width,
{
    let w = width as int;
    let p = plan_of(w);
    lemma_plan_adds_up(w);
    lemma_fitting(room_of(w) - bid_of(w), 0);
    assert(p[0].0 == Col::Name);
    assert forall|i: int| 0 <= i < p.len() implies (#[trigger] p[i]).1 <= width by {
        lemma_widths_part(p, i + 1);
        lemma_widths_part(p, i);
        assert(p.take(i + 1).drop_last() =~= p.take(i));
        if width <= MARKER_WIDTH {
            assert(p.len() == 1);
        }
    }
}

/// The columns of a frame that has room beside the marker fill it exactly:
/// the marker, the widths and a blank between any two add up to its width.
pub proof fn law_columns_fill_the_frame(width: usize)
    requires
        width > MARKER_WIDTH,
    ensures
        MARKER_WIDTH + widths_of(plan_of(width as int)) + gaps_of(plan_of(width as int)) == width,
{
    lemma_plan_adds_up(width as int);
}

proof fn lemma_fitting_grows(a: int, b: int, i: int)
    requires
        0 <= i <= 6,
        a <= b,
    ensures
        fitting(a, i) <= fitting(b, i),
    decreases 6 - i,
{
    if i < 6 {
        let cost = optional_of()[i].least() + 1;
        if a >= cost {
            lemma_fitting_grows(a - cost, b - cost, i + 1);
        } else if b >= cost {
            lemma_fitting(b - cost, i + 1);
        }
    }
}

/// Narrowing the terminal only ever removes columns, from the end: what a
/// frame shows, every wider frame shows in the same place.
pub proof fn law_columns_only_shrink(narrow: usize, wide: usize, i: int)
    requires
        narrow <= wide,
        0 <= i < plan_of(narrow as int).len(),
    ensures
        i < plan_of(wide as int).len(),
        plan_of(narrow as int)[i].0 == plan_of(wide as int)[i].0,
{
    let a = narrow as int;
    let b = wide as int;
    assert(a / 3 <= b / 3 && b / 3 - a / 3 <= b - a);
    assert(room_of(a) - bid_of(a) <= room_of(b) - bid_of(b));
    lemma_fitting_grows(room_of(a) - bid_of(a), room_of(b) - bid_of(b), 0);
    lemma_fitting(room_of(a) - bid_of(a), 0);
    lemma_fitting(room_of(b) - bid_of(b), 0);
}

} // verus!
