//! The graph renderer's layers: each lane's cell gets a symbol from the commit layer, else from
//! the merge layer, else from the pipe layer, and a blank where none has one.
use vstd::prelude::*;
use vstd::string::StrSliceExecFns;
use crate::text::{trim, trimmed};

verus! {

/// A symbol drawn in a lane's cell, in its colour.
#[derive(Clone, Copy, Debug)]
pub struct LayerToken<C> {
    pub symbol: &'static str,
    pub color: C,
}

pub open spec fn blank_symbol(symbol: &str) -> bool {
    trimmed(symbol@).len() == 0
}

fn is_empty(symbol: &str) -> (b: bool)
    ensures
        b == blank_symbol(symbol),
{
    trim(symbol).unicode_len() == 0
}

/// A layer without its trailing blank cells.
pub open spec fn without_trailing_blanks<C>(tokens: Seq<LayerToken<C>>) -> Seq<LayerToken<C>>
    decreases tokens.len(),
{
    if tokens.len() > 0 && blank_symbol(tokens.last().symbol) {
        without_trailing_blanks(tokens.drop_last())
    } else {
        tokens
    }
}

/// The token a layer contributes to cell `i`: one with a symbol that is not blank.
pub open spec fn visible_at<C>(tokens: Seq<LayerToken<C>>, i: int) -> bool {
    0 <= i < tokens.len() && !blank_symbol(tokens[i].symbol)
}

/// What cell `i` shows: the commit layer's symbol, else the merge layer's, else the pipe layer's,
/// else a blank in `blank`.
pub open spec fn composite_at<C>(
    commits: Seq<LayerToken<C>>,
    merges: Seq<LayerToken<C>>,
    pipes: Seq<LayerToken<C>>,
    i: int,
    blank: C,
) -> (Seq<char>, C) {
    if visible_at(commits, i) {
        (commits[i].symbol@, commits[i].color)
    } else if visible_at(merges, i) {
        (merges[i].symbol@, merges[i].color)
    } else if visible_at(pipes, i) {
        (pipes[i].symbol@, pipes[i].color)
    } else {
        (" "@, blank)
    }
}

/// The symbols of one row of the graph, layer by layer.
pub struct LayersContext<C> {
    commits: Vec<LayerToken<C>>,
    merges: Vec<LayerToken<C>>,
    pipes: Vec<LayerToken<C>>,
}

fn trim_empty<C>(tokens: &mut Vec<LayerToken<C>>)
    ensures
        final(tokens)@ == without_trailing_blanks(old(tokens)@),
{
    while tokens.len() > 0 && is_empty(tokens[tokens.len() - 1].symbol)
        invariant
            without_trailing_blanks(tokens@) == without_trailing_blanks(old(tokens)@),
        decreases tokens@.len(),
    {
        let ghost before = tokens@;
        tokens.pop();
        proof {
            assert(tokens@ =~= before.drop_last());
        }
    }
}

impl<C: Copy> LayersContext<C> {
    pub closed spec fn commit_layer(&self) -> Seq<LayerToken<C>> {
        self.commits@
    }

    pub closed spec fn merge_layer(&self) -> Seq<LayerToken<C>> {
        self.merges@
    }

    pub closed spec fn pipe_layer(&self) -> Seq<LayerToken<C>> {
        self.pipes@
    }

    pub fn new() -> (l: Self)
        ensures
            l.commit_layer().len() == 0,
            l.merge_layer().len() == 0,
            l.pipe_layer().len() == 0,
    {
        LayersContext { commits: Vec::new(), merges: Vec::new(), pipes: Vec::new() }
    }

    pub fn clear(&mut self)
        ensures
            final(self).commit_layer().len() == 0,
            final(self).merge_layer().len() == 0,
            final(self).pipe_layer().len() == 0,
    {
        self.commits.clear();
        self.merges.clear();
        self.pipes.clear();
    }

    /// Makes room for `additional` more cells in each layer.
    pub fn reserve(&mut self, additional: usize)
        ensures
            final(self).commit_layer() == old(self).commit_layer(),
            final(self).merge_layer() == old(self).merge_layer(),
            final(self).pipe_layer() == old(self).pipe_layer(),
    {
        self.commits.reserve(additional);
        self.merges.reserve(additional);
        self.pipes.reserve(additional);
    }

    pub fn commit(&mut self, symbol: &'static str, color: C)
        ensures
            final(self).commit_layer() == old(self).commit_layer().push(LayerToken { symbol, color }),
            final(self).merge_layer() == old(self).merge_layer(),
            final(self).pipe_layer() == old(self).pipe_layer(),
    {
        self.commits.push(LayerToken { symbol, color });
    }

    pub fn merge(&mut self, symbol: &'static str, color: C)
        ensures
            final(self).merge_layer() == old(self).merge_layer().push(LayerToken { symbol, color }),
            final(self).commit_layer() == old(self).commit_layer(),
            final(self).pipe_layer() == old(self).pipe_layer(),
    {
        self.merges.push(LayerToken { symbol, color });
    }

    pub fn pipe(&mut self, symbol: &'static str, color: C)
        ensures
            final(self).pipe_layer() == old(self).pipe_layer().push(LayerToken { symbol, color }),
            final(self).commit_layer() == old(self).commit_layer(),
            final(self).merge_layer() == old(self).merge_layer(),
    {
        self.pipes.push(LayerToken { symbol, color });
    }

    /// A pipe drawn in a colour of its own rather than its lane's.
    pub fn pipe_custom(&mut self, symbol: &'static str, _lane: usize, color: C)
        ensures
            final(self).pipe_layer() == old(self).pipe_layer().push(LayerToken { symbol, color }),
            final(self).commit_layer() == old(self).commit_layer(),
            final(self).merge_layer() == old(self).merge_layer(),
    {
        self.pipes.push(LayerToken { symbol, color });
    }

    /// Composites the layers onto `cells`, up to the widest layer once each has lost its trailing
    /// blanks, so sparse merge lines still render; a cell no layer draws in is a blank in `blank`.
    pub fn bake(&mut self, cells: &mut Vec<(&'static str, C)>, blank: C)
        ensures
            final(self).commit_layer() == without_trailing_blanks(old(self).commit_layer()),
            final(self).merge_layer() == without_trailing_blanks(old(self).merge_layer()),
            final(self).pipe_layer() == without_trailing_blanks(old(self).pipe_layer()),
            ({
                let c = final(self).commit_layer();
                let m = final(self).merge_layer();
                let p = final(self).pipe_layer();
                let width = if c.len() >= m.len() && c.len() >= p.len() {
                    c.len()
                } else if m.len() >= p.len() {
                    m.len()
                } else {
                    p.len()
                };
                &&& final(cells)@.len() == old(cells)@.len() + width
                &&& forall|i: int| 0 <= i < old(cells)@.len() ==> final(cells)@[i] == old(cells)@[i]
                &&& forall|i: int| 0 <= i < width ==> {
                    let cell = #[trigger] final(cells)@[old(cells)@.len() + i];
                    (cell.0@, cell.1) == composite_at(c, m, p, i, blank)
                }
            }),
    {
        trim_empty(&mut self.commits);
        trim_empty(&mut self.merges);
        trim_empty(&mut self.pipes);
        let mut width = self.commits.len();
        if self.merges.len() > width {
            width = self.merges.len();
        }
        if self.pipes.len() > width {
            width = self.pipes.len();
        }
        let ghost start = cells@;
        let mut i: usize = 0;
        while i < width
            invariant
                i <= width,
                width >= self.commits@.len(),
                width >= self.merges@.len(),
                width >= self.pipes@.len(),
                width == self.commits@.len() || width == self.merges@.len() || width == self.pipes@.len(),
                cells@.len() == start.len() + i,
                forall|j: int| 0 <= j < start.len() ==> cells@[j] == start[j],
                forall|j: int| 0 <= j < i ==> {
                    let cell = #[trigger] cells@[start.len() + j];
                    (cell.0@, cell.1) == composite_at(self.commits@, self.merges@, self.pipes@, j, blank)
                },
            decreases width - i,
        {
            let cell = if i < self.commits.len() && !is_empty(self.commits[i].symbol) {
                (self.commits[i].symbol, self.commits[i].color)
            } else if i < self.merges.len() && !is_empty(self.merges[i].symbol) {
                (self.merges[i].symbol, self.merges[i].color)
            } else if i < self.pipes.len() && !is_empty(self.pipes[i].symbol) {
                (self.pipes[i].symbol, self.pipes[i].color)
            } else {
                (" ", blank)
            };
            cells.push(cell);
            i = i + 1;
        }
    }
}

} // verus!
