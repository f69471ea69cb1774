//! The splash wordmark's animation: a band of light that sweeps across the art and a grain that
//! shimmers where it passes. Everything here depends only on where a cell is and how many
//! milliseconds the splash has been up, so the animation keeps no state of its own and needs no
//! thread to drive it. Tints are handed in by the caller and chosen here by position in the ramp.
use vstd::prelude::*;
use vstd::string::StrSliceExecFns;
use vstd::wrapping::u64_specs::wrapping_mul;

verus! {

/// How many groups of glyphs of like weight there are.
pub const GRAIN_GROUPS: usize = 5;

/// How long a cell keeps a glyph before it may take another, in milliseconds.
pub const HOLD_MS: u128 = 140;

/// One cell in how many carries a borrowed glyph away from the light.
pub const DENSITY_DARK: u64 = 18;

/// ... at the edges of the sheen.
pub const DENSITY_EDGE: u64 = 7;

/// ... through its middle.
pub const DENSITY_CREST: u64 = 4;

/// How far the sheen leans: two columns a row.
pub const LEAN: usize = 2;

/// How far along the ramp the light carries a cell, step by step across the crest: out to the
/// lightest tint, down through the ramp to the darkest, and back to where the wordmark rests.
pub const PROFILE: [isize; 13] = [0, -1, -2, -3, -2, -1, 0, 1, 2, 3, 2, 1, 0];

/// How many steps the crest is cut into.
pub const STEPS: usize = 13;

/// How long one pass takes, crest and the quiet after it, in milliseconds.
pub const SWEEP_MS: u128 = 5200;

/// How many tints the ramp has, from the lightest to the darkest.
pub const TINTS: usize = 6;

/// Where the top rows of the wordmark rest in the ramp; the rows below rest one step darker.
pub const RESTING: usize = 2;

/// The glyphs of group `g`. A cell only ever swaps for a glyph of its own group.
pub open spec fn grain_group(g: int) -> Seq<char> {
    if g == 0 {
        seq!['#', 'B', 'G']
    } else if g == 1 {
        seq!['P', '5', '6', '4', 'b']
    } else if g == 2 {
        seq!['?', 'J', 'Y', 'C', 'a']
    } else if g == 3 {
        seq!['!', '7', '1', 'L']
    } else {
        seq!['.', '^', ':', '~']
    }
}

/// The first group that holds `glyph`, if any does.
pub open spec fn group_of(glyph: char) -> Option<int> {
    if grain_group(0).contains(glyph) {
        Some(0)
    } else if grain_group(1).contains(glyph) {
        Some(1)
    } else if grain_group(2).contains(glyph) {
        Some(2)
    } else if grain_group(3).contains(glyph) {
        Some(3)
    } else if grain_group(4).contains(glyph) {
        Some(4)
    } else {
        None
    }
}

fn group_size(g: usize) -> (n: usize)
    requires
        g < GRAIN_GROUPS,
    ensures
        n == grain_group(g as int).len(),
{
    if g == 0 {
        3
    } else if g == 1 || g == 2 {
        5
    } else {
        4
    }
}

fn group_glyph(g: usize, k: usize) -> (c: char)
    requires
        g < GRAIN_GROUPS,
        k < grain_group(g as int).len(),
    ensures
        c == grain_group(g as int)[k as int],
{
    if g == 0 {
        if k == 0 { '#' } else if k == 1 { 'B' } else { 'G' }
    } else if g == 1 {
        if k == 0 { 'P' } else if k == 1 { '5' } else if k == 2 { '6' } else if k == 3 { '4' } else { 'b' }
    } else if g == 2 {
        if k == 0 { '?' } else if k == 1 { 'J' } else if k == 2 { 'Y' } else if k == 3 { 'C' } else { 'a' }
    } else if g == 3 {
        if k == 0 { '!' } else if k == 1 { '7' } else if k == 2 { '1' } else { 'L' }
    } else {
        if k == 0 { '.' } else if k == 1 { '^' } else if k == 2 { ':' } else { '~' }
    }
}

fn find_group(glyph: char) -> (r: Option<usize>)
    ensures
        match r {
            Some(g) => group_of(glyph) == Some(g as int),
            None => group_of(glyph) is None,
        },
{
    let mut g: usize = 0;
    while g < GRAIN_GROUPS
        invariant
            g <= GRAIN_GROUPS,
            forall|h: int| 0 <= h < g ==> !(#[trigger] grain_group(h)).contains(glyph),
        decreases GRAIN_GROUPS - g,
    {
        let n = group_size(g);
        let mut k: usize = 0;
        while k < n
            invariant
                g < GRAIN_GROUPS,
                n == grain_group(g as int).len(),
                k <= n,
                forall|j: int| 0 <= j < k ==> grain_group(g as int)[j] != glyph,
            decreases n - k,
        {
            if group_glyph(g, k) == glyph {
                proof {
                    assert(grain_group(g as int).contains(glyph));
                    assert(forall|h: int| 0 <= h < g ==> !(#[trigger] grain_group(h)).contains(glyph));
                }
                return Some(g);
            }
            k = k + 1;
        }
        g = g + 1;
    }
    None
}

/// A number that looks random for a cell but is the same every time it is asked for.
pub open spec fn scatter_spec(row: usize, column: usize, tick: u64) -> u64 {
    let seed0 = wrapping_mul(row as u64, 0x9E37_79B9_7F4A_7C15) ^ wrapping_mul(column as u64, 0xC2B2_AE3D_27D4_EB4F)
        ^ wrapping_mul(tick, 0x1656_67B1_9E37_79F9);
    let seed1 = seed0 ^ (seed0 >> 30u64);
    let seed2 = wrapping_mul(seed1, 0xBF58_476D_1CE4_E5B9);
    let seed3 = seed2 ^ (seed2 >> 27u64);
    let seed4 = wrapping_mul(seed3, 0x94D0_49BB_1331_11EB);
    seed4 ^ (seed4 >> 31u64)
}

fn scatter(row: usize, column: usize, tick: u64) -> (r: u64)
    ensures
        r == scatter_spec(row, column, tick),
{
    let mut seed = (row as u64).wrapping_mul(0x9E37_79B9_7F4A_7C15) ^ (column as u64).wrapping_mul(0xC2B2_AE3D_27D4_EB4F)
        ^ tick.wrapping_mul(0x1656_67B1_9E37_79F9);
    seed = seed ^ (seed >> 30u64);
    seed = seed.wrapping_mul(0xBF58_476D_1CE4_E5B9);
    seed = seed ^ (seed >> 27u64);
    seed = seed.wrapping_mul(0x94D0_49BB_1331_11EB);
    seed ^ (seed >> 31u64)
}

/// Which of a cell's holds is current: every cell has its own offset into the beat, so the
/// borrowed glyphs turn over one at a time.
pub open spec fn hold_spec(row: usize, column: usize, elapsed: u128) -> u64 {
    let offset = scatter_spec(row, column, 0) % (HOLD_MS as u64);
    ((elapsed + offset) / (HOLD_MS as int)) as u64
}

fn hold(row: usize, column: usize, elapsed: u128) -> (h: u64)
    requires
        elapsed + HOLD_MS <= u128::MAX,
    ensures
        h == hold_spec(row, column, elapsed),
{
    let offset = scatter(row, column, 0) % (HOLD_MS as u64);
    ((elapsed + offset as u128) / HOLD_MS) as u64
}

/// Whether `roll` is a multiple of `density`; only zero is a multiple of zero.
pub open spec fn multiple_of(roll: u64, density: u64) -> bool {
    if density == 0 {
        roll == 0
    } else {
        roll % density == 0
    }
}

/// What a cell draws at `elapsed`: now and then a glyph of the same group in place of the one
/// drawn, and never anything before the first beat.
pub open spec fn grain_spec(glyph: char, row: usize, column: usize, density: u64, elapsed: u128) -> char {
    match group_of(glyph) {
        None => glyph,
        Some(g) => {
            let h = hold_spec(row, column, elapsed);
            if h == 0 {
                glyph
            } else {
                let roll = scatter_spec(row, column, h);
                if !multiple_of(roll, density) {
                    glyph
                } else {
                    grain_group(g)[(((roll >> 8u64) as usize) % (grain_group(g).len() as usize)) as int]
                }
            }
        },
    }
}

pub fn grain(glyph: char, row: usize, column: usize, density: u64, elapsed: u128) -> (c: char)
    requires
        elapsed + HOLD_MS <= u128::MAX,
    ensures
        c == grain_spec(glyph, row, column, density, elapsed),
{
    let group = match find_group(glyph) {
        Some(group) => group,
        None => return glyph,
    };
    let h = hold(row, column, elapsed);
    if h == 0 {
        return glyph;
    }
    let roll = scatter(row, column, h);
    let multiple = if density == 0 { roll == 0 } else { roll % density == 0 };
    if !multiple {
        return glyph;
    }
    let n = group_size(group);
    group_glyph(group, ((roll >> 8u64) as usize) % n)
}

/// The band of light travelling across the wordmark, sized off the art it is over.
#[derive(Clone, Copy, Debug, PartialEq, Eq, Structural)]
pub struct Sweep {
    /// The travel plus a quiet gap, so nothing is lit at either end of the cycle.
    pub period: usize,
    /// How wide the crest is, measured along its travel.
    pub crest: usize,
}

/// Whether a sweep over art `widest` columns wide and `rows` rows tall fits the machine's words.
pub open spec fn sweep_fits(widest: int, rows: int) -> bool {
    let span = widest + LEAN * rows;
    let crest = if span / 4 < STEPS { STEPS as int } else { span / 4 };
    &&& span * 4 <= usize::MAX
    &&& span * 4 / 3 + crest <= usize::MAX
}

pub open spec fn sweep_spec(widest: int, rows: int) -> Sweep {
    let span = widest + LEAN * rows;
    let crest = if span / 4 < STEPS { STEPS as int } else { span / 4 };
    Sweep { period: (span * 4 / 3 + crest) as usize, crest: crest as usize }
}

/// Where the crest's leading edge stands when the splash has been up `elapsed` milliseconds.
pub open spec fn front_at(sweep: Sweep, elapsed: u128) -> int {
    ((((elapsed * sweep.period) / (SWEEP_MS as int)) as usize) as int) % (sweep.period as int)
}

/// Where in the light a cell stands with the front at `front`: `None` clear of it, otherwise the
/// step of the profile it is in, from the trailing edge's last step to the leading edge's first.
pub open spec fn band_from_front(sweep: Sweep, front: int, row: int, column: int) -> Option<usize> {
    let reach = column + row * LEAN;
    let behind = if front > reach { front - reach } else { 0 };
    if behind == 0 || behind > sweep.crest {
        None
    } else {
        Some((STEPS - 1 - (behind - 1) * STEPS / (sweep.crest as int)) as usize)
    }
}

pub open spec fn band_at(sweep: Sweep, row: usize, column: usize, elapsed: u128) -> Option<usize> {
    band_from_front(sweep, front_at(sweep, elapsed), row as int, column as int)
}

/// A sweep that can place a cell in its light without dividing by zero or overflowing.
pub open spec fn sweep_usable(sweep: Sweep) -> bool {
    &&& sweep.period > 0
    &&& (sweep.crest == 0 || (sweep.crest - 1) * STEPS <= usize::MAX)
}

impl Sweep {
    /// A crest at least as wide as the profile, and a period that holds it.
    pub open spec fn wf(self) -> bool {
        &&& self.crest >= STEPS
        &&& self.period >= self.crest
        &&& self.crest * STEPS <= usize::MAX
    }

    pub fn over(widest: usize, rows: usize) -> (s: Sweep)
        requires
            sweep_fits(widest as int, rows as int),
        ensures
            s == sweep_spec(widest as int, rows as int),
            s.wf(),
    {
        let span = widest + LEAN * rows;
        let quarter = span / 4;
        let crest = if quarter < STEPS { STEPS } else { quarter };
        assert(crest * STEPS <= usize::MAX) by (nonlinear_arith)
            requires
                crest == (if span / 4 < 13 { 13 } else { span / 4 }),
                span * 4 <= usize::MAX,
                STEPS == 13,
        ;
        Sweep { period: span * 4 / 3 + crest, crest }
    }

    pub fn band(&self, row: usize, column: usize, elapsed: u128) -> (b: Option<usize>)
        requires
            sweep_usable(*self),
            elapsed * self.period <= u128::MAX,
            column + row * LEAN <= usize::MAX,
        ensures
            b == band_at(*self, row, column, elapsed),
            b matches Some(step) ==> step < STEPS,
    {
        let front = ((elapsed * self.period as u128) / SWEEP_MS) as usize % self.period;
        let reach = column + row * LEAN;
        let behind = front.saturating_sub(reach);
        if behind == 0 || behind > self.crest {
            return None;
        }
        let crest = self.crest;
        assert((behind - 1) * STEPS <= usize::MAX && (behind - 1) * STEPS / (crest as int) < STEPS) by (nonlinear_arith)
            requires
                1 <= behind <= crest,
                (crest - 1) * STEPS <= usize::MAX,
                STEPS == 13,
        ;
        Some(STEPS - 1 - (behind - 1) * STEPS / crest)
    }
}

/// The largest number of characters in any of the rows.
pub open spec fn widest_row(rows: Seq<String>) -> nat
    decreases rows.len(),
{
    if rows.len() == 0 {
        0
    } else {
        let rest = widest_row(rows.drop_last());
        if rows.last()@.len() > rest {
            rows.last()@.len()
        } else {
            rest
        }
    }
}

fn widest(rows: &[String]) -> (w: usize)
    requires
        forall|i: int| 0 <= i < rows@.len() ==> (#[trigger] rows@[i])@.len() <= usize::MAX,
    ensures
        w == widest_row(rows@),
{
    let mut w: usize = 0;
    let mut i: usize = 0;
    while i < rows.len()
        invariant
            i <= rows@.len(),
            w == widest_row(rows@.take(i as int)),
        decreases rows@.len() - i,
    {
        let n = rows[i].as_str().unicode_len();
        proof {
            assert(rows@.take(i + 1).drop_last() == rows@.take(i as int));
            assert(rows@.take(i + 1).last() == rows@[i as int]);
        }
        if n > w {
            w = n;
        }
        i = i + 1;
    }
    proof {
        assert(rows@.take(rows@.len() as int) == rows@);
    }
    w
}

/// The sweep for a wordmark drawn in `rows`.
pub fn sweep_over(rows: &[String]) -> (s: Sweep)
    requires
        sweep_fits(widest_row(rows@) as int, rows@.len() as int),
    ensures
        s == sweep_spec(widest_row(rows@) as int, rows@.len() as int),
        s.wf(),
{
    proof {
        assert forall|i: int| 0 <= i < rows@.len() implies (#[trigger] rows@[i])@.len() <= usize::MAX by {
            lemma_widest_covers(rows@, i);
        }
    }
    Sweep::over(widest(rows), rows.len())
}

proof fn lemma_widest_covers(rows: Seq<String>, i: int)
    requires
        0 <= i < rows.len(),
    ensures
        rows[i]@.len() <= widest_row(rows),
    decreases rows.len(),
{
    if i < rows.len() - 1 {
        lemma_widest_covers(rows.drop_last(), i);
    }
}

/// How sparse the grain is where a cell stands: stirred hardest through the middle of the crest
/// and least out in the dark.
pub open spec fn stir_spec(band: Option<usize>) -> u64 {
    match band {
        None => DENSITY_DARK,
        Some(step) => if -1 <= PROFILE@[step as int] <= 1 {
            DENSITY_EDGE
        } else {
            DENSITY_CREST
        },
    }
}

pub fn stir(band: Option<usize>) -> (d: u64)
    requires
        band matches Some(step) ==> step < STEPS,
    ensures
        d == stir_spec(band),
{
    match band {
        None => DENSITY_DARK,
        Some(step) => {
            let p = PROFILE[step];
            if -1 <= p && p <= 1 {
                DENSITY_EDGE
            } else {
                DENSITY_CREST
            }
        },
    }
}

/// The position in the ramp a cell is lit in: where its row rests, rolled along by the light.
pub open spec fn tone_step(row: usize, band: Option<usize>, bright: usize) -> int {
    let resting = RESTING + (if row >= bright { 1int } else { 0int });
    let rolled = match band {
        None => 0int,
        Some(step) => PROFILE@[step as int] as int,
    };
    let t = resting + rolled;
    if t < 0 {
        0
    } else if t > TINTS - 1 {
        TINTS - 1
    } else {
        t
    }
}

fn tone_index(row: usize, band: Option<usize>, bright: usize) -> (t: usize)
    requires
        band matches Some(step) ==> step < STEPS,
    ensures
        t == tone_step(row, band, bright),
        t < TINTS,
{
    let resting: isize = if row >= bright { 3 } else { 2 };
    let rolled: isize = match band {
        None => 0,
        Some(step) => PROFILE[step],
    };
    let t = resting + rolled;
    if t < 0 {
        0
    } else if t > 5 {
        5
    } else {
        t as usize
    }
}

/// The tint a cell is lit in, from the ramp `tints`.
pub fn tone<T: Copy>(row: usize, band: Option<usize>, bright: usize, tints: &[T; 6]) -> (c: T)
    requires
        band matches Some(step) ==> step < STEPS,
    ensures
        c == tints@[tone_step(row, band, bright)],
{
    tints[tone_index(row, band, bright)]
}

/// What a cell shows: its glyph, stirred by the grain when `scrambled`, and its step in the ramp.
pub open spec fn cell_spec(row: usize, column: int, glyph: char, bright: usize, sweep: Sweep, elapsed: u128, scrambled: bool) -> (char, usize) {
    let band = band_at(sweep, row, column as usize, elapsed);
    (
        if scrambled {
            grain_spec(glyph, row, column as usize, stir_spec(band), elapsed)
        } else {
            glyph
        },
        tone_step(row, band, bright) as usize,
    )
}

/// The cells of a row of text, left to right.
pub open spec fn cells_spec(row: usize, text: Seq<char>, bright: usize, sweep: Sweep, elapsed: u128, scrambled: bool) -> Seq<(char, usize)> {
    Seq::new(text.len(), |column: int| cell_spec(row, column, text[column], bright, sweep, elapsed, scrambled))
}

/// Cells gathered, in order, into runs that share a step in the ramp; neighbouring runs differ.
pub open spec fn runs_of(cells: Seq<(char, usize)>) -> Seq<(Seq<char>, usize)>
    decreases cells.len(),
{
    if cells.len() == 0 {
        Seq::empty()
    } else {
        let rest = runs_of(cells.drop_last());
        let cell = cells.last();
        if rest.len() > 0 && rest.last().1 == cell.1 {
            rest.update(rest.len() - 1, (rest.last().0.push(cell.0), cell.1))
        } else {
            rest.push((seq![cell.0], cell.1))
        }
    }
}

pub open spec fn runs_view(runs: Seq<(Vec<char>, usize)>) -> Seq<(Seq<char>, usize)> {
    runs.map_values(|r: (Vec<char>, usize)| (r.0@, r.1))
}

/// A row of the wordmark as it stands at `elapsed`: its glyphs, grained when `scrambled`, in runs
/// of one step of the ramp each.
pub fn line(row: usize, text: &str, bright: usize, sweep: &Sweep, elapsed: u128, scrambled: bool) -> (runs: Vec<(Vec<char>, usize)>)
    requires
        sweep_usable(*sweep),
        elapsed * sweep.period <= u128::MAX,
        scrambled ==> elapsed + HOLD_MS <= u128::MAX,
        text@.len() + row * LEAN <= usize::MAX,
    ensures
        runs_view(runs@) == runs_of(cells_spec(row, text@, bright, *sweep, elapsed, scrambled)),
{
    let ghost cells = cells_spec(row, text@, bright, *sweep, elapsed, scrambled);
    let n = text.unicode_len();
    let mut runs: Vec<(Vec<char>, usize)> = Vec::new();
    let mut run: Vec<char> = Vec::new();
    let mut colour: Option<usize> = None;
    let mut column: usize = 0;
    while column < n
        invariant
            n == text@.len(),
            column <= n,
            sweep_usable(*sweep),
            elapsed * sweep.period <= u128::MAX,
            scrambled ==> elapsed + HOLD_MS <= u128::MAX,
            n + row * LEAN <= usize::MAX,
            cells == cells_spec(row, text@, bright, *sweep, elapsed, scrambled),
            match colour {
                None => column == 0 && runs@.len() == 0 && run@.len() == 0,
                Some(t) => runs_view(runs@).push((run@, t)) == runs_of(cells.take(column as int)),
            },
        decreases n - column,
    {
        let glyph = text.get_char(column);
        let band = sweep.band(row, column, elapsed);
        let cell = tone_index(row, band, bright);
        let shown = if scrambled {
            grain(glyph, row, column, stir(band), elapsed)
        } else {
            glyph
        };
        let ghost before = runs_view(runs@);
        let ghost old_run = run@;
        let ghost old_colour = colour;
        let ghost old_column = column;
        proof {
            assert(cells.take(column + 1).drop_last() == cells.take(column as int));
            assert(cells.take(column + 1).last() == (shown, cell));
        }
        match colour {
            Some(previous) => {
                if previous != cell {
                    let ghost finished = run@;
                    runs.push((run, previous));
                    run = Vec::new();
                    proof {
                        assert(runs_view(runs@) =~= before.push((finished, previous)));
                    }
                }
            },
            None => {},
        }
        proof {
            assert(runs_view(runs@) == runs@.map_values(|r: (Vec<char>, usize)| (r.0@, r.1)));
        }
        colour = Some(cell);
        run.push(shown);
        column = column + 1;
        proof {
            let prefix = cells.take(old_column as int);
            let whole = cells.take(column as int);
            assert(whole.drop_last() == prefix);
            assert(whole.last() == (shown, cell));
            let rest = runs_of(prefix);
            match old_colour {
                None => {
                    assert(prefix.len() == 0);
                    assert(rest.len() == 0);
                    assert(runs_of(whole) == rest.push((seq![shown], cell)));
                    assert(run@ =~= seq![shown]);
                    assert(runs_view(runs@).push((run@, cell)) =~= runs_of(whole));
                },
                Some(previous) => {
                    assert(rest == before.push((old_run, previous)));
                    if previous == cell {
                        assert(runs_of(whole) == rest.update(rest.len() - 1, (old_run.push(shown), cell)));
                        assert(run@ =~= old_run.push(shown));
                        assert(runs_view(runs@) == before);
                        assert(runs_view(runs@).push((run@, cell)) =~= runs_of(whole));
                    } else {
                        assert(runs_of(whole) == rest.push((seq![shown], cell)));
                        assert(run@ =~= seq![shown]);
                        assert(runs_view(runs@).push((run@, cell)) =~= runs_of(whole));
                    }
                },
            }
        }
    }
    proof {
        assert(cells.take(n as int) == cells);
    }
    match colour {
        Some(last) => {
            let ghost before = runs_view(runs@);
            runs.push((run, last));
            proof {
                assert(runs_view(runs@) =~= before.push((run@, last)));
            }
        },
        None => {
            proof {
                assert(runs_view(runs@) =~= Seq::<(Seq<char>, usize)>::empty());
            }
        },
    }
    runs
}

/// The wordmark drawn in `rows` as it stands at `elapsed`: a line a row, grain and tint as the
/// sheen leaves them.
pub fn lines(rows: &[String], bright: usize, elapsed: u128) -> (out: Vec<Vec<(Vec<char>, usize)>>)
    requires
        sweep_fits(widest_row(rows@) as int, rows@.len() as int),
        elapsed * sweep_spec(widest_row(rows@) as int, rows@.len() as int).period <= u128::MAX,
    ensures
        out@.len() == rows@.len(),
        forall|i: int| 0 <= i < rows@.len() ==> runs_view((#[trigger] out@[i])@) == runs_of(
            cells_spec(i as usize, rows@[i]@, bright, sweep_spec(widest_row(rows@) as int, rows@.len() as int), elapsed, true),
        ),
{
    let sweep = sweep_over(rows);
    assert(elapsed + HOLD_MS <= u128::MAX) by (nonlinear_arith)
        requires
            elapsed * sweep.period <= u128::MAX,
            sweep.period >= 13,
    ;
    let mut out: Vec<Vec<(Vec<char>, usize)>> = Vec::new();
    let mut i: usize = 0;
    while i < rows.len()
        invariant
            sweep == sweep_spec(widest_row(rows@) as int, rows@.len() as int),
            sweep.wf(),
            sweep_fits(widest_row(rows@) as int, rows@.len() as int),
            elapsed * sweep.period <= u128::MAX,
            elapsed + HOLD_MS <= u128::MAX,
            i <= rows@.len(),
            out@.len() == i,
            forall|j: int| 0 <= j < i ==> runs_view((#[trigger] out@[j])@) == runs_of(
                cells_spec(j as usize, rows@[j]@, bright, sweep, elapsed, true),
            ),
        decreases rows@.len() - i,
    {
        proof {
            lemma_widest_covers(rows@, i as int);
        }
        out.push(line(i, rows[i].as_str(), bright, &sweep, elapsed, true));
        i = i + 1;
    }
    out
}

/// The compact logo, a word rather than a picture: it takes the sheen, but its letters stay put.
pub fn word(text: &str, elapsed: u128) -> (runs: Vec<(Vec<char>, usize)>)
    requires
        sweep_fits(text@.len() as int, 1),
        elapsed * sweep_spec(text@.len() as int, 1).period <= u128::MAX,
    ensures
        runs_view(runs@) == runs_of(cells_spec(0, text@, 1, sweep_spec(text@.len() as int, 1), elapsed, false)),
{
    let sweep = Sweep::over(text.unicode_len(), 1);
    line(0, text, 1, &sweep, elapsed, false)
}

/// The tint a cell of the wordmark in `rows` is lit in at `elapsed`, from the ramp `tints`.
pub fn tint<T: Copy>(row: usize, column: usize, rows: &[String], bright: usize, tints: &[T; 6], elapsed: u128) -> (c: T)
    requires
        sweep_fits(widest_row(rows@) as int, rows@.len() as int),
        elapsed * sweep_spec(widest_row(rows@) as int, rows@.len() as int).period <= u128::MAX,
        column + row * LEAN <= usize::MAX,
    ensures
        c == tints@[tone_step(
            row,
            band_at(sweep_spec(widest_row(rows@) as int, rows@.len() as int), row, column, elapsed),
            bright,
        )],
{
    let sweep = sweep_over(rows);
    tone(row, sweep.band(row, column, elapsed), bright, tints)
}

/// Each glyph of a group is found in that group first: no glyph belongs to two groups.
pub proof fn lemma_groups_do_not_overlap(g: int, k: int)
    requires
        0 <= g < GRAIN_GROUPS,
        0 <= k < grain_group(g).len(),
    ensures
        group_of(grain_group(g)[k]) == Some(g),
{
    let c = grain_group(g)[k];
    assert(grain_group(g).contains(c));
    lemma_group_members(0, c);
    lemma_group_members(1, c);
    lemma_group_members(2, c);
    lemma_group_members(3, c);
    lemma_group_members(4, c);
    lemma_group_members(g, c);
}

proof fn lemma_group_members(g: int, c: char)
    requires
        0 <= g < GRAIN_GROUPS,
    ensures
        grain_group(g).contains(c) <==> exists|k: int| 0 <= k < grain_group(g).len() && grain_group(g)[k] == c,
        grain_group(g).contains(c) ==> {
            if g == 0 {
                c == '#' || c == 'B' || c == 'G'
            } else if g == 1 {
                c == 'P' || c == '5' || c == '6' || c == '4' || c == 'b'
            } else if g == 2 {
                c == '?' || c == 'J' || c == 'Y' || c == 'C' || c == 'a'
            } else if g == 3 {
                c == '!' || c == '7' || c == '1' || c == 'L'
            } else {
                c == '.' || c == '^' || c == ':' || c == '~'
            }
        },
{
    let s = grain_group(g);
    if s.contains(c) {
        let k = choose|k: int| 0 <= k < s.len() && s[k] == c;
        if g == 0 {
            assert(k == 0 || k == 1 || k == 2);
        } else if g == 1 || g == 2 {
            assert(k == 0 || k == 1 || k == 2 || k == 3 || k == 4);
        } else {
            assert(k == 0 || k == 1 || k == 2 || k == 3);
        }
    }
}

/// The grain only ever swaps a glyph for another of its own group, and leaves a glyph no group
/// names exactly as it is.
pub proof fn lemma_grain_keeps_weight(glyph: char, row: usize, column: usize, density: u64, elapsed: u128)
    ensures
        group_of(glyph) is None ==> grain_spec(glyph, row, column, density, elapsed) == glyph,
        group_of(glyph) matches Some(g) ==> grain_group(g).contains(grain_spec(glyph, row, column, density, elapsed)),
{
    if let Some(g) = group_of(glyph) {
        let c = grain_spec(glyph, row, column, density, elapsed);
        if c != glyph {
            let h = hold_spec(row, column, elapsed);
            let roll = scatter_spec(row, column, h);
            let n = grain_group(g).len();
            let k = (((roll >> 8u64) as usize) % (n as usize)) as int;
            assert(0 <= k < n);
            assert(grain_group(g)[k] == c);
        } else {
            assert(grain_group(g).contains(glyph));
        }
    }
}

/// A blank in the art is never filled in.
pub proof fn lemma_blank_stays_blank(row: usize, column: usize, density: u64, elapsed: u128)
    ensures
        grain_spec(' ', row, column, density, elapsed) == ' ',
{
    lemma_group_members(0, ' ');
    lemma_group_members(1, ' ');
    lemma_group_members(2, ' ');
    lemma_group_members(3, ' ');
    lemma_group_members(4, ' ');
}

/// Before the first beat nothing has moved: every glyph is the one drawn and no cell is lit.
pub proof fn lemma_at_rest(sweep: Sweep, glyph: char, row: usize, column: usize, density: u64)
    requires
        sweep_usable(sweep),
    ensures
        grain_spec(glyph, row, column, density, 0) == glyph,
        band_at(sweep, row, column, 0) is None,
{
    let offset = scatter_spec(row, column, 0) % (HOLD_MS as u64);
    assert(offset < 140);
    assert(hold_spec(row, column, 0) == 0);
    let p = sweep.period as int;
    assert(0u128 * sweep.period == 0);
    assert(((0int / (SWEEP_MS as int)) as usize) as int == 0);
    assert(0int % p == 0) by (nonlinear_arith)
        requires
            p > 0,
    ;
    assert(front_at(sweep, 0) == 0);
}

/// Nothing of the art is lit as the crest sets off or as it comes round again, so the wrap from
/// one pass to the next cannot show as a jump.
pub proof fn lemma_quiet_at_both_ends(widest: int, rows: int, row: int, column: int)
    requires
        sweep_fits(widest, rows),
        0 <= row < rows,
        0 <= column < widest,
    ensures
        band_from_front(sweep_spec(widest, rows), 0, row, column) is None,
        band_from_front(sweep_spec(widest, rows), sweep_spec(widest, rows).period - 1, row, column) is None,
{
    let span = widest + LEAN * rows;
    assert(span * 4 / 3 >= span);
}

/// A sweep is sized for whatever art it is over: its crest is cut into every step of the profile,
/// and its period is long enough for the crest to cross the whole of the art.
pub proof fn lemma_sweep_fits_the_art(widest: int, rows: int)
    requires
        sweep_fits(widest, rows),
        widest >= 0,
        rows >= 0,
    ensures
        sweep_spec(widest, rows).crest >= STEPS,
        sweep_spec(widest, rows).period >= widest + LEAN * rows + sweep_spec(widest, rows).crest,
        sweep_spec(widest, rows).wf(),
{
    let span = widest + LEAN * rows;
    let crest = sweep_spec(widest, rows).crest;
    assert(span * 4 / 3 >= span);
    assert(crest * STEPS <= usize::MAX) by (nonlinear_arith)
        requires
            crest == (if span / 4 < 13 { 13 } else { span / 4 }),
            span * 4 <= usize::MAX,
            STEPS == 13,
    ;
}

/// The crest leans: one row down is the same as `LEAN` columns along.
pub proof fn lemma_crest_leans(sweep: Sweep, front: int, row: int, column: int)
    ensures
        band_from_front(sweep, front, row + 1, column) == band_from_front(sweep, front, row, column + LEAN),
{
}

/// As the light passes, every cell of the art stands in every step of the crest in turn.
pub proof fn lemma_every_step_passes(widest: int, rows: int, row: int, column: int, step: int)
    requires
        sweep_fits(widest, rows),
        0 <= row < rows,
        0 <= column < widest,
        0 <= step < STEPS,
    ensures
        exists|front: int| 0 <= front < sweep_spec(widest, rows).period
            && #[trigger] band_from_front(sweep_spec(widest, rows), front, row, column) == Some(step as usize),
{
    let sweep = sweep_spec(widest, rows);
    lemma_sweep_fits_the_art(widest, rows);
    let crest = sweep.crest as int;
    let j = STEPS - 1 - step;
    let x = (j * crest + 12) / 13;
    assert(x * 13 >= j * crest && x * 13 <= j * crest + 12) by (nonlinear_arith)
        requires
            x == (j * crest + 12) / 13,
            j >= 0,
            crest >= 0,
    ;
    assert(x >= 0 && x < crest) by (nonlinear_arith)
        requires
            x * 13 >= j * crest,
            x * 13 <= j * crest + 12,
            0 <= j <= 12,
            crest >= 13,
    ;
    assert(0 <= x * 13 - j * crest < crest);
    vstd::arithmetic::div_mod::lemma_fundamental_div_mod_converse(x * 13, crest, j, x * 13 - j * crest);
    assert(x * STEPS / crest == j);
    let reach = column + row * LEAN;
    let front = reach + x + 1;
    assert(band_from_front(sweep, front, row, column) == Some(step as usize));
}

/// The glyphs of the runs, run after run.
pub open spec fn runs_glyphs(runs: Seq<(Seq<char>, usize)>) -> Seq<char>
    decreases runs.len(),
{
    if runs.len() == 0 {
        Seq::empty()
    } else {
        runs_glyphs(runs.drop_last()) + runs.last().0
    }
}

/// Gathered into runs, a row keeps every glyph, in order, so it keeps its width; a run is never
/// empty and never shares its step of the ramp with the run before it.
pub proof fn lemma_runs_keep_every_glyph(cells: Seq<(char, usize)>)
    ensures
        runs_glyphs(runs_of(cells)) == cells.map_values(|c: (char, usize)| c.0),
        forall|i: int| 0 <= i < runs_of(cells).len() ==> (#[trigger] runs_of(cells)[i]).0.len() > 0,
        forall|i: int| 0 < i < runs_of(cells).len() ==> (#[trigger] runs_of(cells)[i]).1 != runs_of(cells)[i - 1].1,
        cells.len() > 0 ==> runs_of(cells).len() > 0 && runs_of(cells).last().1 == cells.last().1,
    decreases cells.len(),
{
    if cells.len() > 0 {
        let init = cells.drop_last();
        lemma_runs_keep_every_glyph(init);
        let rest = runs_of(init);
        let cell = cells.last();
        let r = runs_of(cells);
        assert(cells.map_values(|c: (char, usize)| c.0) =~= init.map_values(|c: (char, usize)| c.0).push(cell.0));
        if rest.len() > 0 && rest.last().1 == cell.1 {
            assert(r.drop_last() =~= rest.drop_last());
            assert(runs_glyphs(r) == runs_glyphs(rest.drop_last()) + rest.last().0.push(cell.0));
            assert(runs_glyphs(rest) == runs_glyphs(rest.drop_last()) + rest.last().0);
            assert(runs_glyphs(rest.drop_last()) + rest.last().0.push(cell.0) =~= (runs_glyphs(rest.drop_last())
                + rest.last().0).push(cell.0));
        } else {
            assert(r.drop_last() =~= rest);
            assert(runs_glyphs(r) == runs_glyphs(rest) + seq![cell.0]);
            assert(runs_glyphs(rest) + seq![cell.0] =~= runs_glyphs(rest).push(cell.0));
        }
    }
}

} // verus!
