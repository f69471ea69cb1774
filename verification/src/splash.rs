//! The splash screen's layout: which wordmark fits the terminal, how many rows the screen's body
//! takes, and how far down it starts so that it sits in the middle.
use vstd::prelude::*;
use crate::text::same_text;

verus! {

/// The narrowest terminal that gets the drawn wordmark.
pub const WIDE_COLUMNS: u16 = 120;

/// The narrowest terminal that gets the smaller drawn wordmark; below it, the word alone.
pub const NARROW_COLUMNS: u16 = 80;

#[derive(Clone, Copy, Debug, PartialEq, Eq, Structural)]
pub enum LogoSize {
    Compact,
    Narrow,
    Wide,
}

pub open spec fn logo_for(width: u16) -> LogoSize {
    if width < NARROW_COLUMNS {
        LogoSize::Compact
    } else if width < WIDE_COLUMNS {
        LogoSize::Narrow
    } else {
        LogoSize::Wide
    }
}

pub fn logo_size(width: u16) -> (s: LogoSize)
    ensures
        s == logo_for(width),
{
    if width < NARROW_COLUMNS {
        LogoSize::Compact
    } else if width < WIDE_COLUMNS {
        LogoSize::Narrow
    } else {
        LogoSize::Wide
    }
}

/// How many rows each wordmark takes.
pub open spec fn rows_of(size: LogoSize) -> usize {
    match size {
        LogoSize::Compact => 1,
        LogoSize::Narrow => 9,
        LogoSize::Wide => 11,
    }
}

/// How many of the wordmark's top rows take the lighter tone.
pub open spec fn bright_rows_of(size: LogoSize) -> usize {
    match size {
        LogoSize::Compact => 1,
        LogoSize::Narrow => 4,
        LogoSize::Wide => 5,
    }
}

pub fn logo_rows(size: LogoSize) -> (n: usize)
    ensures
        n == rows_of(size),
{
    match size {
        LogoSize::Compact => 1,
        LogoSize::Narrow => 9,
        LogoSize::Wide => 11,
    }
}

pub fn bright_rows(size: LogoSize) -> (n: usize)
    ensures
        n == bright_rows_of(size),
{
    match size {
        LogoSize::Compact => 1,
        LogoSize::Narrow => 4,
        LogoSize::Wide => 5,
    }
}

/// How many rows the splash's body takes below the wordmark: one while loading; the credits, and
/// a warning when no repository could be opened, when there is nothing recent; otherwise a
/// heading, the actions, and a row per recent repository.
pub open spec fn content_rows_of(loading: bool, recent: nat, has_repository: bool) -> int {
    if loading {
        1
    } else if recent == 0 && !has_repository {
        5
    } else if recent == 0 {
        3
    } else {
        5 + recent as int
    }
}

pub fn content_rows(loading: bool, recent: usize, has_repository: bool) -> (n: usize)
    requires
        recent + 5 <= usize::MAX,
    ensures
        n == content_rows_of(loading, recent as nat, has_repository),
{
    if loading {
        1
    } else if recent == 0 && !has_repository {
        5
    } else if recent == 0 {
        3
    } else {
        5 + recent
    }
}

/// How many blank rows go above the splash so that it sits in the middle of `visible` rows.
pub open spec fn top_padding_of(visible: int, rows: int) -> int {
    if visible > rows {
        (visible - rows) / 2
    } else {
        0
    }
}

pub fn top_padding(visible: usize, logo: usize, content: usize) -> (n: usize)
    requires
        logo + content <= usize::MAX,
    ensures
        n == top_padding_of(visible as int, logo + content),
{
    visible.saturating_sub(logo + content) / 2
}

/// The splash's selection kept inside a list of `total` entries.
pub fn clamp_selection(selected: usize, total: usize) -> (n: usize)
    ensures
        total == 0 ==> n == 0,
        total > 0 ==> n == (if selected < total { selected } else { (total - 1) as usize }),
{
    if total == 0 {
        0
    } else if selected >= total {
        total - 1
    } else {
        selected
    }
}

/// One row of the splash's body, below the wordmark.
#[derive(Clone, Copy, Debug, PartialEq, Eq, Structural)]
pub enum SplashRow {
    Blank,
    Loading,
    MadeWith,
    RepositoryUrl,
    NotARepository,
    RecentHeading,
    RecentActions,
    /// A recent repository: `current` when it is the repository open now, `selected` when it
    /// carries the selection brackets.
    Recent { index: usize, current: bool, selected: bool },
}

/// The rows for the recent repositories: the open one is marked current, and the selected one
/// is bracketed when the list can be chosen from.
pub open spec fn recent_rows(recent: Seq<Seq<char>>, path: Option<Seq<char>>, selected: usize, selectable: bool) -> Seq<SplashRow> {
    Seq::new(
        recent.len(),
        |i: int| SplashRow::Recent { index: i as usize, current: path == Some(recent[i]), selected: selectable && i == selected },
    )
}

/// The splash's body: a blank row, then a loading line while loading; the credits, and a warning
/// when no repository is open, when nothing is recent; otherwise a heading, the actions, and the
/// recent repositories, selectable only once loading is done and the list has the focus.
pub open spec fn body_rows(
    loading: bool,
    recent: Seq<Seq<char>>,
    has_repository: bool,
    path: Option<Seq<char>>,
    selected: usize,
    focused: bool,
) -> Seq<SplashRow> {
    if loading {
        seq![SplashRow::Blank, SplashRow::Loading]
    } else if recent.len() == 0 {
        let credits = seq![SplashRow::Blank, SplashRow::MadeWith, SplashRow::Blank, SplashRow::RepositoryUrl];
        if has_repository {
            credits
        } else {
            credits + seq![SplashRow::Blank, SplashRow::NotARepository]
        }
    } else {
        seq![SplashRow::Blank, SplashRow::RecentHeading, SplashRow::Blank, SplashRow::RecentActions, SplashRow::Blank]
            + recent_rows(recent, path, selected, focused)
    }
}

pub fn splash_body(
    loading: bool,
    recent: &Vec<String>,
    has_repository: bool,
    path: &Option<String>,
    selected: usize,
    focused: bool,
) -> (rows: Vec<SplashRow>)
    ensures
        rows@ == body_rows(
            loading,
            recent@.map_values(|r: String| r@),
            has_repository,
            match path {
                Some(p) => Some(p@),
                None => None,
            },
            selected,
            focused,
        ),
{
    let ghost views = recent@.map_values(|r: String| r@);
    let ghost path_view = match path {
        Some(p) => Some(p@),
        None => None,
    };
    let mut rows: Vec<SplashRow> = Vec::new();
    rows.push(SplashRow::Blank);
    if loading {
        rows.push(SplashRow::Loading);
        proof {
            assert(rows@ =~= body_rows(loading, views, has_repository, path_view, selected, focused));
        }
        return rows;
    }
    if recent.len() == 0 {
        rows.push(SplashRow::MadeWith);
        rows.push(SplashRow::Blank);
        rows.push(SplashRow::RepositoryUrl);
        if !has_repository {
            rows.push(SplashRow::Blank);
            rows.push(SplashRow::NotARepository);
        }
        proof {
            assert(rows@ =~= body_rows(loading, views, has_repository, path_view, selected, focused));
        }
        return rows;
    }
    rows.push(SplashRow::RecentHeading);
    rows.push(SplashRow::Blank);
    rows.push(SplashRow::RecentActions);
    rows.push(SplashRow::Blank);
    let ghost head = rows@;
    let mut i: usize = 0;
    while i < recent.len()
        invariant
            i <= recent@.len(),
            views == recent@.map_values(|r: String| r@),
            rows@ == head + recent_rows(views, path_view, selected, focused).take(i as int),
            path_view == match path {
                Some(p) => Some(p@),
                None => None,
            },
        decreases recent@.len() - i,
    {
        let current = match path {
            Some(p) => same_text(p.as_str(), recent[i].as_str()),
            None => false,
        };
        rows.push(SplashRow::Recent { index: i, current, selected: focused && i == selected });
        proof {
            assert(views[i as int] == recent@[i as int]@);
            assert(rows@ =~= head + recent_rows(views, path_view, selected, focused).take(i + 1));
        }
        i = i + 1;
    }
    proof {
        assert(recent_rows(views, path_view, selected, focused).take(recent@.len() as int) =~= recent_rows(views, path_view, selected, focused));
        assert(rows@ =~= body_rows(loading, views, has_repository, path_view, selected, focused));
    }
    rows
}

/// The splash leaves room around its body: the padding above and the body fit in the rows there
/// are, and padding never exceeds what is left over.
pub proof fn lemma_splash_fits(visible: int, rows: int)
    requires
        0 <= rows,
        0 <= visible,
    ensures
        0 <= top_padding_of(visible, rows),
        rows <= visible ==> 2 * top_padding_of(visible, rows) + rows <= visible,
        rows <= visible ==> visible - (2 * top_padding_of(visible, rows) + rows) <= 1,
{
}

} // verus!
