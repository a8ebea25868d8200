//! Line breaking: words and their pixel widths go in, runs placed on lines of
//! a fixed pixel width come out.
//!
//! A [`LineBreaker`] holds what has been placed so far, as one sequence of
//! runs and line breaks, and the running offset in the last line. Its value
//! is a [`Placement`]; every operation is first a spec function on
//! placements and then an executable function that computes the same.
//!
//! Pixel widths are `usize` values that stop at `usize::MAX` ([`saturated`]).

use crate::segmenter::{
    break_apart, broken_apart, display_columns, display_width, find_words, joined_text,
    joined_words, only_spaces, pieces_of, pieces_view, unicode_words, Piece, PieceView,
};
use vstd::prelude::*;
use vstd::string::StringExecFns;

verus! {

/// A piece of text placed on a line.
#[derive(Clone, Debug, PartialEq, Eq)]
pub struct Run {
    /// Index in the layout of the span that the text comes from.
    pub span: usize,
    /// The word with its spaces.
    pub text: String,
    /// Offset in dots of the run's start from the start of its line.
    pub x: usize,
    /// Measured width of the text in dots.
    pub width: usize,
}

/// The mathematical value of a [`Run`].
pub struct RunView {
    pub span: int,
    pub text: Seq<char>,
    pub x: int,
    pub width: int,
}

impl View for Run {
    type V = RunView;

    open spec fn view(&self) -> RunView {
        RunView { span: self.span as int, text: self.text@, x: self.x as int, width: self.width as int }
    }
}

/// One entry of a placement: a run, or the end of a line.
#[derive(Clone, Debug, PartialEq, Eq)]
pub enum Placed {
    Run(Run),
    Break,
}

/// The mathematical value of a [`Placed`].
pub enum PlacedView {
    Run(RunView),
    Break,
}

impl View for Placed {
    type V = PlacedView;

    open spec fn view(&self) -> PlacedView {
        match self {
            Placed::Run(run) => PlacedView::Run(run@),
            Placed::Break => PlacedView::Break,
        }
    }
}

/// The values of the entries of `items`, in order.
pub open spec fn placed_view(items: Seq<Placed>) -> Seq<PlacedView> {
    items.map_values(|p: Placed| p@)
}

/// `n`, or `usize::MAX` where `n` is larger.
pub open spec fn saturated(n: int) -> int {
    if n > usize::MAX {
        usize::MAX as int
    } else {
        n
    }
}

/// Width in dots of a word of `columns` columns followed by `spaces` spaces,
/// each column `char_width` dots wide.
pub open spec fn pixel_width_of(columns: int, spaces: int, char_width: int) -> int {
    saturated((columns + spaces) * char_width)
}

/// Width in dots of `piece`: the word's display columns and one column for
/// each space behind it, each `char_width` dots wide.
pub open spec fn piece_width(piece: PieceView, char_width: int) -> int {
    pixel_width_of(display_columns(piece.word) as int, piece.whitespace.len() as int, char_width)
}

/// The first multiple of `stop` behind `x`.
pub open spec fn next_tab_stop(x: int, stop: int) -> int {
    (x / stop + 1) * stop
}

/// `\t`, `\r` or `\n` occurs in `word`.
pub open spec fn is_control_word(word: Seq<char>) -> bool {
    word.contains('\t') || word.contains('\r') || word.contains('\n')
}

/// What has been placed, and the offset at which the next run would start.
pub struct Placement {
    /// Runs and line breaks, in the order in which they were placed.
    pub items: Seq<PlacedView>,
    /// Offset in dots from the start of the last line.
    pub x: int,
}

/// The number of lines of `items`: one more than it has breaks.
pub open spec fn line_count(items: Seq<PlacedView>) -> int
    decreases items.len(),
{
    if items.len() == 0 {
        1
    } else {
        line_count(items.drop_last()) + if items.last() is Break { 1int } else { 0int }
    }
}

/// The texts of the runs of `items`, one behind the other.
pub open spec fn placed_text(items: Seq<PlacedView>) -> Seq<char>
    decreases items.len(),
{
    if items.len() == 0 {
        Seq::empty()
    } else {
        placed_text(items.drop_last()) + match items.last() {
            PlacedView::Run(run) => run.text,
            PlacedView::Break => Seq::empty(),
        }
    }
}

/// Every run of `items` ends at or before `width`, or starts its line and is
/// by itself wider than the line.
pub open spec fn within_lines(items: Seq<PlacedView>, width: int) -> bool {
    forall|i: int|
        0 <= i < items.len() ==> match #[trigger] items[i] {
            PlacedView::Run(run) => 0 <= run.x && (run.x + run.width <= width || (run.x == 0
                && run.width > width)),
            PlacedView::Break => true,
        }
}

impl Placement {
    /// Nothing placed: one empty line.
    pub open spec fn start() -> Placement {
        Placement { items: Seq::empty(), x: 0 }
    }

    /// The offset lies in the line.
    pub open spec fn wf(self, width: int) -> bool {
        0 <= self.x <= width
    }

    /// A new line is begun.
    pub open spec fn new_line(self) -> Placement {
        Placement { items: self.items.push(PlacedView::Break), x: 0 }
    }

    /// The offset goes back to the start of the line; the line stays.
    pub open spec fn carriage_return(self) -> Placement {
        Placement { x: 0, ..self }
    }

    /// The offset moves to the next multiple of `stop`. Where `stop` is 0 or
    /// that multiple lies behind the end of the line, nothing changes.
    pub open spec fn tab(self, stop: int, width: int) -> Placement {
        if stop > 0 && next_tab_stop(self.x, stop) <= width {
            Placement { x: next_tab_stop(self.x, stop), ..self }
        } else {
            self
        }
    }

    /// A run of `px` dots is put at the offset, and the offset moves behind
    /// it, at most to the end of the line.
    pub open spec fn append(self, span: int, text: Seq<char>, px: int, width: int) -> Placement {
        Placement {
            items: self.items.push(PlacedView::Run(RunView { span, text, x: self.x, width: px })),
            x: if self.x + px <= width {
                self.x + px
            } else {
                width
            },
        }
    }

    /// A word that is not wider than a line: it goes behind what the line
    /// holds if it fits there, and onto a new line if not.
    pub open spec fn place_word(self, span: int, text: Seq<char>, px: int, width: int) -> Placement {
        if self.x + px <= width {
            self.append(span, text, px, width)
        } else {
            self.new_line().append(span, text, px, width)
        }
    }

    /// A piece of a word that was broken apart. It starts a new line if the
    /// line holds something and the piece with one more glyph behind it would
    /// pass the line's end; otherwise it goes at the offset.
    pub open spec fn place_fragment(
        self,
        span: int,
        text: Seq<char>,
        px: int,
        char_width: int,
        width: int,
    ) -> Placement {
        if self.x > 0 && self.x + px + char_width > width {
            self.new_line().append(span, text, px, width)
        } else {
            self.append(span, text, px, width)
        }
    }

    /// The first `n` of `fragments` placed one after the other.
    pub open spec fn place_fragments(
        self,
        span: int,
        fragments: Seq<PieceView>,
        n: nat,
        char_width: int,
        width: int,
    ) -> Placement
        decreases n,
    {
        if n == 0 || n > fragments.len() {
            self
        } else {
            self.place_fragments(span, fragments, (n - 1) as nat, char_width, width).place_fragment(
                span,
                fragments[n - 1].text(),
                piece_width(fragments[n - 1], char_width),
                char_width,
                width,
            )
        }
    }

    /// One word of a span. A word that holds `\t` moves the offset to the
    /// next tab stop, one that holds `\r` takes it back to the line's start,
    /// one that holds `\n` begins a new line; none of the three leaves text.
    /// Any other word is placed with its spaces: broken apart if it is wider
    /// than a whole line, behind what the line holds if it fits there, on a
    /// new line otherwise.
    pub open spec fn place_piece(
        self,
        span: int,
        piece: PieceView,
        char_width: int,
        tab_len: int,
        width: int,
    ) -> Placement {
        let px = piece_width(piece, char_width);
        if piece.word.contains('\t') {
            self.tab(saturated(tab_len * char_width), width)
        } else if piece.word.contains('\r') {
            self.carriage_return()
        } else if piece.word.contains('\n') {
            self.new_line()
        } else if px > width {
            let fragments = pieces_of(
                broken_apart(piece.word, piece.whitespace, (width / char_width) as nat),
            );
            self.place_fragments(span, fragments, fragments.len(), char_width, width)
        } else {
            self.place_word(span, piece.text(), px, width)
        }
    }

    /// The first `n` of `pieces` placed one after the other.
    pub open spec fn place_pieces(
        self,
        span: int,
        pieces: Seq<PieceView>,
        n: nat,
        char_width: int,
        tab_len: int,
        width: int,
    ) -> Placement
        decreases n,
    {
        if n == 0 || n > pieces.len() {
            self
        } else {
            self.place_pieces(span, pieces, (n - 1) as nat, char_width, tab_len, width).place_piece(
                span,
                pieces[n - 1],
                char_width,
                tab_len,
                width,
            )
        }
    }

    /// The text of one span: its words, placed one after the other.
    pub open spec fn place_text(
        self,
        span: int,
        text: Seq<char>,
        char_width: int,
        tab_len: int,
        width: int,
    ) -> Placement {
        let pieces = pieces_of(unicode_words(text));
        self.place_pieces(span, pieces, pieces.len(), char_width, tab_len, width)
    }
}

/// The line breaker's state.
#[derive(Clone, Debug, PartialEq, Eq)]
pub struct LineBreaker {
    /// Runs and line breaks, in the order in which they were placed.
    pub items: Vec<Placed>,
    /// Offset in dots from the start of the last line.
    pub x: usize,
}

impl View for LineBreaker {
    type V = Placement;

    open spec fn view(&self) -> Placement {
        Placement { items: placed_view(self.items@), x: self.x as int }
    }
}

/// Whether `c` occurs in `text`.
pub fn has_char(text: &str, c: char) -> (found: bool)
    ensures
        found == text@.contains(c),
{
    broadcast use vstd::string::axiom_spec_iter;

    let mut found = false;
    for d in it: text.chars()
        invariant
            it.seq() == text@,
            found == it.seq().take(it.index() as int).contains(c),
    {
        proof {
            let before = it.seq().take(it.index() as int);
            let after = it.seq().take(it.index() + 1);
            assert(after == before.push(d));
            if before.contains(c) {
                let j = choose|j: int| 0 <= j < before.len() && before[j] == c;
                assert(after[j] == c);
            }
            if d == c {
                assert(after[it.index() as int] == c);
            }
        }
        if d == c {
            found = true;
        }
    }
    assert(text@.take(text@.len() as int) == text@);
    found
}

/// `a * b`, or `usize::MAX` where the product is larger.
pub fn saturating_product(a: usize, b: usize) -> (product: usize)
    ensures
        product == saturated(a * b),
{
    match a.checked_mul(b) {
        Some(product) => product,
        None => usize::MAX,
    }
}

/// Width in dots of a word of `columns` columns followed by `spaces` spaces,
/// each column `char_width` dots wide.
pub fn pixel_width(columns: u64, spaces: usize, char_width: usize) -> (px: usize)
    ensures
        px == pixel_width_of(columns as int, spaces as int, char_width as int),
{
    if char_width == 0 {
        assert((columns + spaces) * 0 == 0);
        return 0;
    }
    let cells: u128 = columns as u128 + spaces as u128;
    if cells > usize::MAX as u128 {
        assert((columns + spaces) * char_width > usize::MAX) by (nonlinear_arith)
            requires
                columns + spaces > usize::MAX,
                char_width >= 1,
        ;
        return usize::MAX;
    }
    saturating_product(cells as usize, char_width)
}

impl LineBreaker {
    /// A line breaker that has placed nothing.
    pub fn new() -> (breaker: LineBreaker)
        ensures
            breaker@ == Placement::start(),
    {
        let breaker = LineBreaker { items: Vec::new(), x: 0 };
        assert(breaker@.items =~= Seq::<PlacedView>::empty());
        breaker
    }

    /// Begins a new line.
    pub fn new_line(&mut self)
        ensures
            final(self)@ == old(self)@.new_line(),
    {
        self.items.push(Placed::Break);
        self.x = 0;
        assert(self@.items =~= old(self)@.items.push(PlacedView::Break));
    }

    /// Takes the offset back to the start of the line.
    pub fn carriage_return(&mut self)
        ensures
            final(self)@ == old(self)@.carriage_return(),
    {
        self.x = 0;
    }

    /// Moves the offset to the next multiple of `stop`, if there is one in
    /// the line.
    pub fn tab(&mut self, stop: usize, width: usize)
        ensures
            final(self)@ == old(self)@.tab(stop as int, width as int),
    {
        if stop == 0 {
            return ;
        }
        let stops: usize = self.x / stop;
        assert(stops * stop <= self.x) by (nonlinear_arith)
            requires
                stops == self.x / stop,
                stop > 0,
        ;
        if stops == usize::MAX {
            assert((stops + 1) * stop > usize::MAX) by (nonlinear_arith)
                requires
                    stops == usize::MAX,
                    stop >= 1,
            ;
            return ;
        }
        match (stops + 1).checked_mul(stop) {
            Some(next) => {
                if next <= width {
                    self.x = next;
                }
            },
            None => {},
        }
    }

    /// Puts a run of `px` dots at the offset and moves the offset behind it.
    pub fn append(&mut self, span: usize, text: String, px: usize, width: usize)
        ensures
            final(self)@ == old(self)@.append(span as int, text@, px as int, width as int),
    {
        let run = Run { span, text, x: self.x, width: px };
        self.items.push(Placed::Run(run));
        let end: usize = self.x.saturating_add(px);
        self.x = if end <= width {
            end
        } else {
            width
        };
        assert(self@.items =~= old(self)@.items.push(
            PlacedView::Run(RunView { span: span as int, text: text@, x: old(self).x as int, width: px as int }),
        ));
    }

    /// Places a word that is not wider than a line.
    pub fn place_word(&mut self, span: usize, text: String, px: usize, width: usize)
        ensures
            final(self)@ == old(self)@.place_word(span as int, text@, px as int, width as int),
    {
        let fits = match self.x.checked_add(px) {
            Some(end) => end <= width,
            None => false,
        };
        if !fits {
            self.new_line();
        }
        self.append(span, text, px, width);
    }

    /// Places a piece of a word that was broken apart.
    pub fn place_fragment(
        &mut self,
        span: usize,
        text: String,
        px: usize,
        char_width: usize,
        width: usize,
    )
        ensures
            final(self)@ == old(self)@.place_fragment(
                span as int,
                text@,
                px as int,
                char_width as int,
                width as int,
            ),
    {
        let passes = match self.x.checked_add(px) {
            Some(end) => match end.checked_add(char_width) {
                Some(after) => after > width,
                None => true,
            },
            None => true,
        };
        if self.x > 0 && passes {
            self.new_line();
        }
        self.append(span, text, px, width);
    }

    /// Width in dots of `piece` at `char_width` dots a column.
    pub fn measure(piece: &Piece, char_width: usize) -> (px: usize)
        ensures
            px == piece_width(piece@, char_width as int),
    {
        let columns = display_width(piece.word.as_str());
        let spaces = piece.whitespace.as_str().unicode_len();
        pixel_width(columns, spaces, char_width)
    }

    /// Places the pieces of a word that was broken apart, one after the
    /// other.
    pub fn place_fragments(
        &mut self,
        span: usize,
        fragments: &Vec<Piece>,
        char_width: usize,
        width: usize,
    )
        ensures
            final(self)@ == old(self)@.place_fragments(
                span as int,
                pieces_view(fragments@),
                fragments@.len(),
                char_width as int,
                width as int,
            ),
    {
        let ghost start = self@;
        let ghost views = pieces_view(fragments@);
        let mut i: usize = 0;
        while i < fragments.len()
            invariant
                i <= fragments@.len(),
                views == pieces_view(fragments@),
                self@ == start.place_fragments(
                    span as int,
                    views,
                    i as nat,
                    char_width as int,
                    width as int,
                ),
            decreases fragments@.len() - i,
        {
            let fragment = &fragments[i];
            assert(views[i as int] == fragment@);
            let px = Self::measure(fragment, char_width);
            let text = piece_text(fragment);
            self.place_fragment(span, text, px, char_width, width);
            i = i + 1;
        }
    }

    /// Places one word of a span: a control word moves the offset, any other
    /// word leaves its text, in one run or broken apart.
    pub fn place_piece(
        &mut self,
        span: usize,
        piece: &Piece,
        char_width: usize,
        tab_len: usize,
        width: usize,
    )
        ensures
            final(self)@ == old(self)@.place_piece(
                span as int,
                piece@,
                char_width as int,
                tab_len as int,
                width as int,
            ),
            placed_text(final(self)@.items) == placed_text(old(self)@.items) + kept_text(
                piece@,
                char_width as int,
                width as int,
            ),
    {
        let ghost before = self@;
        proof {
            lemma_placed_text_steps(before, span as int, piece@.text(), piece_width(piece@, char_width as int), width as int);
        }
        if has_char(piece.word.as_str(), '\t') {
            self.tab(saturating_product(tab_len, char_width), width);
            return ;
        }
        if has_char(piece.word.as_str(), '\r') {
            self.carriage_return();
            return ;
        }
        if has_char(piece.word.as_str(), '\n') {
            self.new_line();
            return ;
        }
        let px = Self::measure(piece, char_width);
        if px > width {
            assert(char_width > 0) by {
                if char_width == 0 {
                    assert((display_columns(piece@.word) + piece@.whitespace.len()) * 0 == 0);
                }
            }
            let fragments = break_apart(piece, width / char_width);
            self.place_fragments(span, &fragments, char_width, width);
            proof {
                let views = pieces_view(fragments@);
                lemma_fragments_text(before, span as int, views, views.len(), char_width as int, width as int);
                assert forall|i: int| 0 <= i < views.len() - 1 implies (#[trigger] views[i]).whitespace.len() == 0 by {
                    assert(views[i] == fragments@[i]@);
                }
                if views.len() > 0 {
                    assert(views[views.len() - 1] == fragments@[views.len() - 1]@);
                    lemma_joined_text_of_fragments(views, views.len(), piece@.word, piece@.whitespace);
                } else {
                    assert(piece@.word.len() == 0);
                }
            }
        } else {
            self.place_word(span, piece_text(piece), px, width);
        }
    }

    /// Places the words of `pieces`, one after the other.
    pub fn place_pieces(
        &mut self,
        span: usize,
        pieces: &Vec<Piece>,
        char_width: usize,
        tab_len: usize,
        width: usize,
    )
        ensures
            final(self)@ == old(self)@.place_pieces(
                span as int,
                pieces_view(pieces@),
                pieces@.len(),
                char_width as int,
                tab_len as int,
                width as int,
            ),
            placed_text(final(self)@.items) == placed_text(old(self)@.items) + kept_texts(
                pieces_view(pieces@),
                pieces@.len(),
                char_width as int,
                width as int,
            ),
    {
        let ghost start = self@;
        let ghost views = pieces_view(pieces@);
        let mut i: usize = 0;
        while i < pieces.len()
            invariant
                i <= pieces@.len(),
                views == pieces_view(pieces@),
                self@ == start.place_pieces(
                    span as int,
                    views,
                    i as nat,
                    char_width as int,
                    tab_len as int,
                    width as int,
                ),
                placed_text(self@.items) == placed_text(start.items) + kept_texts(
                    views,
                    i as nat,
                    char_width as int,
                    width as int,
                ),
            decreases pieces@.len() - i,
        {
            let piece = &pieces[i];
            assert(views[i as int] == piece@);
            self.place_piece(span, piece, char_width, tab_len, width);
            i = i + 1;
        }
    }

    /// Places the text of one span: finds its words and places them one
    /// after the other. The words with their spaces, read together, are the
    /// text, and the spaces are spaces only.
    pub fn place_text(
        &mut self,
        span: usize,
        text: &str,
        char_width: usize,
        tab_len: usize,
        width: usize,
    )
        ensures
            final(self)@ == old(self)@.place_text(
                span as int,
                text@,
                char_width as int,
                tab_len as int,
                width as int,
            ),
            placed_text(final(self)@.items) == placed_text(old(self)@.items) + kept_texts(
                pieces_of(unicode_words(text@)),
                unicode_words(text@).len(),
                char_width as int,
                width as int,
            ),
            joined_text(pieces_of(unicode_words(text@)), unicode_words(text@).len()) == text@,
            only_spaces(pieces_of(unicode_words(text@))),
    {
        let pieces = find_words(text);
        self.place_pieces(span, &pieces, char_width, tab_len, width);
    }
}

/// The word of `piece` with its spaces, as a string of its own.
pub fn piece_text(piece: &Piece) -> (text: String)
    ensures
        text@ == piece@.text(),
{
    let mut text = piece.word.clone();
    text.append(piece.whitespace.as_str());
    text
}

/// The text that placing `piece` leaves in the placement: none for a control
/// word, none for spaces without a word that are wider than a line, and the
/// word with its spaces otherwise.
pub open spec fn kept_text(piece: PieceView, char_width: int, width: int) -> Seq<char> {
    if is_control_word(piece.word) {
        Seq::empty()
    } else if piece.word.len() == 0 && piece_width(piece, char_width) > width {
        Seq::empty()
    } else {
        piece.text()
    }
}

/// The text that placing the first `n` of `pieces` leaves.
pub open spec fn kept_texts(pieces: Seq<PieceView>, n: nat, char_width: int, width: int) -> Seq<
    char,
>
    decreases n,
{
    if n == 0 || n > pieces.len() {
        Seq::empty()
    } else {
        kept_texts(pieces, (n - 1) as nat, char_width, width) + kept_text(
            pieces[n - 1],
            char_width,
            width,
        )
    }
}

/// What each single step does to the placed text: a break adds nothing, a
/// run adds its text.
pub proof fn lemma_placed_text_steps(st: Placement, span: int, text: Seq<char>, px: int, width: int)
    ensures
        placed_text(st.new_line().items) == placed_text(st.items),
        placed_text(st.append(span, text, px, width).items) == placed_text(st.items) + text,
        placed_text(st.new_line().append(span, text, px, width).items) == placed_text(st.items)
            + text,
        placed_text(st.items) + Seq::<char>::empty() == placed_text(st.items),
{
    assert(st.new_line().items.drop_last() == st.items);
    assert(st.append(span, text, px, width).items.drop_last() == st.items);
    assert(st.new_line().append(span, text, px, width).items.drop_last() == st.new_line().items);
    assert(placed_text(st.items) + Seq::<char>::empty() == placed_text(st.items));
}

/// Placing pieces of a broken word leaves the text of every piece, in order.
pub proof fn lemma_fragments_text(
    st: Placement,
    span: int,
    fragments: Seq<PieceView>,
    n: nat,
    char_width: int,
    width: int,
)
    requires
        n <= fragments.len(),
    ensures
        placed_text(st.place_fragments(span, fragments, n, char_width, width).items) == placed_text(
            st.items,
        ) + joined_text(fragments, n),
    decreases n,
{
    if n == 0 {
        assert(placed_text(st.items) + Seq::<char>::empty() == placed_text(st.items));
    } else {
        let before = st.place_fragments(span, fragments, (n - 1) as nat, char_width, width);
        lemma_fragments_text(st, span, fragments, (n - 1) as nat, char_width, width);
        lemma_placed_text_steps(
            before,
            span,
            fragments[n - 1].text(),
            piece_width(fragments[n - 1], char_width),
            width,
        );
        assert((placed_text(st.items) + joined_text(fragments, (n - 1) as nat)) + fragments[n
            - 1].text() == placed_text(st.items) + (joined_text(fragments, (n - 1) as nat)
            + fragments[n - 1].text()));
    }
}

/// Pieces that cover a word, with the word's spaces behind the last of them
/// and none behind the others, read together as the word with its spaces.
pub proof fn lemma_joined_text_of_fragments(
    fragments: Seq<PieceView>,
    n: nat,
    word: Seq<char>,
    whitespace: Seq<char>,
)
    requires
        0 < n <= fragments.len(),
        forall|i: int| 0 <= i < n - 1 ==> (#[trigger] fragments[i]).whitespace.len() == 0,
        fragments[n - 1].whitespace == whitespace,
        joined_words(fragments, n) == word,
    ensures
        joined_text(fragments, n) == word + whitespace,
{
    lemma_joined_text_without_spaces(fragments, (n - 1) as nat);
    assert((joined_words(fragments, (n - 1) as nat) + fragments[n - 1].word) + whitespace
        == joined_words(fragments, (n - 1) as nat) + (fragments[n - 1].word + whitespace));
}

/// Where none of the first `n` pieces has spaces, their texts are their
/// words.
pub proof fn lemma_joined_text_without_spaces(fragments: Seq<PieceView>, n: nat)
    requires
        n <= fragments.len(),
        forall|i: int| 0 <= i < n ==> (#[trigger] fragments[i]).whitespace.len() == 0,
    ensures
        joined_text(fragments, n) == joined_words(fragments, n),
    decreases n,
{
    if n > 0 {
        lemma_joined_text_without_spaces(fragments, (n - 1) as nat);
        assert(fragments[n - 1].whitespace =~= Seq::<char>::empty());
        assert(fragments[n - 1].text() =~= fragments[n - 1].word);
    }
}

/// The least number of lines of `width` dots that hold `total` dots.
pub open spec fn lines_needed(total: int, width: int) -> int {
    (total + width - 1) / width
}

/// The widths of the first `n` pieces, added up.
pub open spec fn total_width(pieces: Seq<PieceView>, n: nat, char_width: int) -> int
    decreases n,
{
    if n == 0 || n > pieces.len() {
        0
    } else {
        total_width(pieces, (n - 1) as nat, char_width) + piece_width(pieces[n - 1], char_width)
    }
}

/// Every run of `items` starts its line and is no wider than the line.
pub open spec fn each_run_starts_a_line(items: Seq<PlacedView>, width: int) -> bool {
    forall|i: int|
        0 <= i < items.len() ==> match #[trigger] items[i] {
            PlacedView::Run(run) => run.x == 0 && run.width <= width,
            PlacedView::Break => true,
        }
}

/// The pieces of a broken word fill whole lines: each but the last is as
/// wide as a line, and the last is not empty and no wider than a line.
pub open spec fn line_sized(pieces: Seq<PieceView>, char_width: int, width: int) -> bool {
    &&& pieces.len() > 0
    &&& forall|i: int|
        0 <= i < pieces.len() - 1 ==> piece_width(#[trigger] pieces[i], char_width) == width
    &&& 0 < piece_width(pieces[pieces.len() - 1], char_width) <= width
}

/// What a single step adds to the number of lines.
pub proof fn lemma_line_count_steps(st: Placement, span: int, text: Seq<char>, px: int, width: int)
    ensures
        line_count(st.new_line().items) == line_count(st.items) + 1,
        line_count(st.append(span, text, px, width).items) == line_count(st.items),
        line_count(st.new_line().append(span, text, px, width).items) == line_count(st.items) + 1,
{
    assert(st.new_line().items.drop_last() == st.items);
    assert(line_count(st.new_line().items) == line_count(st.items) + 1);
    assert(st.append(span, text, px, width).items.drop_last() == st.items);
    let both = st.new_line().append(span, text, px, width).items;
    assert(both.drop_last() == st.new_line().items);
    assert(line_count(both) == line_count(both.drop_last()));
}

/// A word wider than a line, alone in a layout, takes as many lines as its
/// width needs, no line is overfull and no character is lost: where the
/// pieces it was broken into fill whole lines, each piece is the one run of a
/// line of its own, so the lines are as many as the pieces, and that is the
/// least number of lines that hold the pieces' total width.
pub proof fn lemma_long_word_lines(
    span: int,
    fragments: Seq<PieceView>,
    char_width: int,
    width: int,
)
    requires
        width > 0,
        char_width > 0,
        line_sized(fragments, char_width, width),
    ensures
        ({
            let placed = Placement::start().place_fragments(
                span,
                fragments,
                fragments.len(),
                char_width,
                width,
            );
            &&& line_count(placed.items) == fragments.len()
            &&& line_count(placed.items) == lines_needed(
                total_width(fragments, fragments.len(), char_width),
                width,
            )
            &&& each_run_starts_a_line(placed.items, width)
            &&& placed_text(placed.items) == joined_text(fragments, fragments.len())
        }),
{
    let k = fragments.len();
    lemma_long_word_prefix(span, fragments, k, char_width, width);
    lemma_fragments_text(Placement::start(), span, fragments, k, char_width, width);
    assert(placed_text(Placement::start().items) == Seq::<char>::empty());
    assert(Seq::<char>::empty() + joined_text(fragments, k) == joined_text(fragments, k));
    let last = piece_width(fragments[k - 1], char_width);
    let total = total_width(fragments, k, char_width);
    assert(total == (k - 1) * width + last);
    assert(lines_needed(total, width) == k) by (nonlinear_arith)
        requires
            total == (k - 1) * width + last,
            0 < last <= width,
            width > 0,
    ;
}

/// The same of the word itself: a word that is no control word and wider
/// than a line, the only word of a layout, is broken apart, and where its
/// pieces fill whole lines it takes the least number of lines that hold
/// their total width, each piece on a line of its own, with no character
/// lost.
pub proof fn lemma_long_word(
    span: int,
    piece: PieceView,
    char_width: int,
    tab_len: int,
    width: int,
)
    requires
        width > 0,
        char_width > 0,
        !is_control_word(piece.word),
        piece_width(piece, char_width) > width,
        line_sized(
            pieces_of(broken_apart(piece.word, piece.whitespace, (width / char_width) as nat)),
            char_width,
            width,
        ),
    ensures
        ({
            let fragments = pieces_of(
                broken_apart(piece.word, piece.whitespace, (width / char_width) as nat),
            );
            let placed = Placement::start().place_piece(span, piece, char_width, tab_len, width);
            &&& line_count(placed.items) == lines_needed(
                total_width(fragments, fragments.len(), char_width),
                width,
            )
            &&& each_run_starts_a_line(placed.items, width)
            &&& placed_text(placed.items) == joined_text(fragments, fragments.len())
        }),
{
    let fragments = pieces_of(
        broken_apart(piece.word, piece.whitespace, (width / char_width) as nat),
    );
    lemma_long_word_lines(span, fragments, char_width, width);
}

/// The state after the first `n` pieces of a word whose pieces fill whole
/// lines, placed into an empty layout.
pub proof fn lemma_long_word_prefix(
    span: int,
    fragments: Seq<PieceView>,
    n: nat,
    char_width: int,
    width: int,
)
    requires
        width > 0,
        char_width > 0,
        line_sized(fragments, char_width, width),
        0 < n <= fragments.len(),
    ensures
        ({
            let placed = Placement::start().place_fragments(span, fragments, n, char_width, width);
            &&& line_count(placed.items) == n
            &&& placed.x == piece_width(fragments[n - 1], char_width)
            &&& each_run_starts_a_line(placed.items, width)
            &&& total_width(fragments, n, char_width) == (n - 1) * width + piece_width(
                fragments[n - 1],
                char_width,
            )
        }),
    decreases n,
{
    let start = Placement::start();
    let px = piece_width(fragments[n - 1], char_width);
    let text = fragments[n - 1].text();
    let before = start.place_fragments(span, fragments, (n - 1) as nat, char_width, width);
    let placed = start.place_fragments(span, fragments, n, char_width, width);
    assert(placed == before.place_fragment(span, text, px, char_width, width));
    lemma_line_count_steps(before, span, text, px, width);
    if n == 1 {
        assert(before == start);
        assert(line_count(start.items) == 1);
        assert(total_width(fragments, 0, char_width) == 0);
        assert forall|i: int| 0 <= i < placed.items.len() implies match #[trigger] placed.items[i] {
            PlacedView::Run(run) => run.x == 0 && run.width <= width,
            PlacedView::Break => true,
        } by {}
    } else {
        lemma_long_word_prefix(span, fragments, (n - 1) as nat, char_width, width);
        assert(piece_width(fragments[n - 2], char_width) == width);
        assert(before.x == width);
        assert(placed == before.new_line().append(span, text, px, width));
        assert forall|i: int| 0 <= i < placed.items.len() implies match #[trigger] placed.items[i] {
            PlacedView::Run(run) => run.x == 0 && run.width <= width,
            PlacedView::Break => true,
        } by {
            if i < before.items.len() {
                assert(placed.items[i] == before.items[i]);
            }
        }
        assert((n - 2) * width + width + px == (n - 1) * width + px) by (nonlinear_arith);
    }
}

/// No run passes the end of its line, but for a piece that is by itself
/// wider than a line and has a line of its own: placing a word keeps this
/// true.
pub proof fn lemma_place_piece_within(
    st: Placement,
    span: int,
    piece: PieceView,
    char_width: int,
    tab_len: int,
    width: int,
)
    requires
        st.wf(width),
        char_width >= 0,
        within_lines(st.items, width),
    ensures
        st.place_piece(span, piece, char_width, tab_len, width).wf(width),
        within_lines(st.place_piece(span, piece, char_width, tab_len, width).items, width),
{
    let px = piece_width(piece, char_width);
    let placed = st.place_piece(span, piece, char_width, tab_len, width);
    assert(px >= 0) by (nonlinear_arith)
        requires
            px == saturated((display_columns(piece.word) + piece.whitespace.len()) * char_width),
            char_width >= 0,
    ;
    if piece.word.contains('\t') {
        let stop = saturated(tab_len * char_width);
        if stop > 0 {
            assert(next_tab_stop(st.x, stop) >= 0) by (nonlinear_arith)
                requires
                    st.x >= 0,
                    stop > 0,
            ;
        }
    } else if is_control_word(piece.word) {
        assert forall|i: int| 0 <= i < placed.items.len() implies match #[trigger] placed.items[i] {
            PlacedView::Run(run) => 0 <= run.x && (run.x + run.width <= width || (run.x == 0
                && run.width > width)),
            PlacedView::Break => true,
        } by {
            if i < st.items.len() {
                assert(placed.items[i] == st.items[i]);
            }
        }
    } else if px > width {
        let fragments = pieces_of(
            broken_apart(piece.word, piece.whitespace, (width / char_width) as nat),
        );
        lemma_place_fragments_within(st, span, fragments, fragments.len(), char_width, width);
    } else if st.x + px <= width {
        lemma_append_within(st, span, piece.text(), px, width);
    } else {
        lemma_new_line_within(st, width);
        lemma_append_within(st.new_line(), span, piece.text(), px, width);
    }
}

/// A line break keeps every run where it is.
pub proof fn lemma_new_line_within(st: Placement, width: int)
    requires
        width >= 0,
        within_lines(st.items, width),
    ensures
        st.new_line().wf(width),
        within_lines(st.new_line().items, width),
{
    let placed = st.new_line();
    assert forall|i: int| 0 <= i < placed.items.len() implies match #[trigger] placed.items[i] {
        PlacedView::Run(run) => 0 <= run.x && (run.x + run.width <= width || (run.x == 0
            && run.width > width)),
        PlacedView::Break => true,
    } by {
        if i < st.items.len() {
            assert(placed.items[i] == st.items[i]);
        }
    }
}

/// A run that ends in the line, or starts it and is wider than the line,
/// keeps the placement within its lines.
pub proof fn lemma_append_within(st: Placement, span: int, text: Seq<char>, px: int, width: int)
    requires
        st.wf(width),
        px >= 0,
        within_lines(st.items, width),
        st.x + px <= width || st.x == 0,
    ensures
        st.append(span, text, px, width).wf(width),
        within_lines(st.append(span, text, px, width).items, width),
{
    let placed = st.append(span, text, px, width);
    assert forall|i: int| 0 <= i < placed.items.len() implies match #[trigger] placed.items[i] {
        PlacedView::Run(run) => 0 <= run.x && (run.x + run.width <= width || (run.x == 0
            && run.width > width)),
        PlacedView::Break => true,
    } by {
        if i < st.items.len() {
            assert(placed.items[i] == st.items[i]);
        }
    }
}

/// The pieces of a broken word keep the placement within its lines.
pub proof fn lemma_place_fragments_within(
    st: Placement,
    span: int,
    fragments: Seq<PieceView>,
    n: nat,
    char_width: int,
    width: int,
)
    requires
        st.wf(width),
        char_width >= 0,
        within_lines(st.items, width),
        n <= fragments.len(),
    ensures
        st.place_fragments(span, fragments, n, char_width, width).wf(width),
        within_lines(st.place_fragments(span, fragments, n, char_width, width).items, width),
    decreases n,
{
    if n > 0 {
        lemma_place_fragments_within(st, span, fragments, (n - 1) as nat, char_width, width);
        let before = st.place_fragments(span, fragments, (n - 1) as nat, char_width, width);
        let piece = fragments[n - 1];
        let px = piece_width(piece, char_width);
        assert(px >= 0) by (nonlinear_arith)
            requires
                px == saturated(
                    (display_columns(piece.word) + piece.whitespace.len()) * char_width,
                ),
                char_width >= 0,
        ;
        if before.x > 0 && before.x + px + char_width > width {
            lemma_new_line_within(before, width);
            lemma_append_within(before.new_line(), span, piece.text(), px, width);
        } else {
            lemma_append_within(before, span, piece.text(), px, width);
        }
    }
}

/// Every run of `items` comes from a span whose index is below `bound`.
pub open spec fn spans_below(items: Seq<PlacedView>, bound: int) -> bool {
    forall|i: int|
        0 <= i < items.len() ==> match #[trigger] items[i] {
            PlacedView::Run(run) => 0 <= run.span < bound,
            PlacedView::Break => true,
        }
}

/// A break, and a run of a span below the bound, keep the span indices
/// below the bound.
pub proof fn lemma_steps_spans_below(
    st: Placement,
    span: int,
    text: Seq<char>,
    px: int,
    width: int,
    bound: int,
)
    requires
        spans_below(st.items, bound),
        0 <= span < bound,
    ensures
        spans_below(st.new_line().items, bound),
        spans_below(st.append(span, text, px, width).items, bound),
        spans_below(st.new_line().append(span, text, px, width).items, bound),
{
    let a = st.new_line().items;
    assert forall|i: int| 0 <= i < a.len() implies match #[trigger] a[i] {
        PlacedView::Run(run) => 0 <= run.span < bound,
        PlacedView::Break => true,
    } by {
        if i < st.items.len() {
            assert(a[i] == st.items[i]);
        }
    }
    let b = st.append(span, text, px, width).items;
    assert forall|i: int| 0 <= i < b.len() implies match #[trigger] b[i] {
        PlacedView::Run(run) => 0 <= run.span < bound,
        PlacedView::Break => true,
    } by {
        if i < st.items.len() {
            assert(b[i] == st.items[i]);
        }
    }
    let c = st.new_line().append(span, text, px, width).items;
    assert forall|i: int| 0 <= i < c.len() implies match #[trigger] c[i] {
        PlacedView::Run(run) => 0 <= run.span < bound,
        PlacedView::Break => true,
    } by {
        if i < a.len() {
            assert(c[i] == a[i]);
        }
    }
}

/// The pieces of a broken word keep the span indices below the bound.
pub proof fn lemma_fragments_spans_below(
    st: Placement,
    span: int,
    fragments: Seq<PieceView>,
    n: nat,
    char_width: int,
    width: int,
    bound: int,
)
    requires
        spans_below(st.items, bound),
        0 <= span < bound,
        n <= fragments.len(),
    ensures
        spans_below(st.place_fragments(span, fragments, n, char_width, width).items, bound),
    decreases n,
{
    if n > 0 {
        lemma_fragments_spans_below(st, span, fragments, (n - 1) as nat, char_width, width, bound);
        let before = st.place_fragments(span, fragments, (n - 1) as nat, char_width, width);
        lemma_steps_spans_below(
            before,
            span,
            fragments[n - 1].text(),
            piece_width(fragments[n - 1], char_width),
            width,
            bound,
        );
    }
}

/// The words of a span keep the span indices below the bound.
pub proof fn lemma_pieces_spans_below(
    st: Placement,
    span: int,
    pieces: Seq<PieceView>,
    n: nat,
    char_width: int,
    tab_len: int,
    width: int,
    bound: int,
)
    requires
        spans_below(st.items, bound),
        0 <= span < bound,
        n <= pieces.len(),
    ensures
        spans_below(st.place_pieces(span, pieces, n, char_width, tab_len, width).items, bound),
    decreases n,
{
    if n > 0 {
        lemma_pieces_spans_below(st, span, pieces, (n - 1) as nat, char_width, tab_len, width, bound);
        let before = st.place_pieces(span, pieces, (n - 1) as nat, char_width, tab_len, width);
        let piece = pieces[n - 1];
        lemma_steps_spans_below(
            before,
            span,
            piece.text(),
            piece_width(piece, char_width),
            width,
            bound,
        );
        let fragments = pieces_of(
            broken_apart(piece.word, piece.whitespace, (width / char_width) as nat),
        );
        lemma_fragments_spans_below(before, span, fragments, fragments.len(), char_width, width, bound);
    }
}

/// The words of a span keep every run within its line, but for pieces that
/// are by themselves wider than a line.
pub proof fn lemma_place_pieces_within(
    st: Placement,
    span: int,
    pieces: Seq<PieceView>,
    n: nat,
    char_width: int,
    tab_len: int,
    width: int,
)
    requires
        st.wf(width),
        char_width >= 0,
        within_lines(st.items, width),
        n <= pieces.len(),
    ensures
        st.place_pieces(span, pieces, n, char_width, tab_len, width).wf(width),
        within_lines(st.place_pieces(span, pieces, n, char_width, tab_len, width).items, width),
    decreases n,
{
    if n > 0 {
        lemma_place_pieces_within(st, span, pieces, (n - 1) as nat, char_width, tab_len, width);
        lemma_place_piece_within(
            st.place_pieces(span, pieces, (n - 1) as nat, char_width, tab_len, width),
            span,
            pieces[n - 1],
            char_width,
            tab_len,
            width,
        );
    }
}

/// Placing any of `pieces` leaves the piece's whole text: none of them is a
/// control word, and none is spaces without a word that are wider than a
/// line.
pub open spec fn keeps_all(pieces: Seq<PieceView>, char_width: int, width: int) -> bool {
    forall|i: int|
        0 <= i < pieces.len() ==> kept_text(#[trigger] pieces[i], char_width, width)
            == pieces[i].text()
}

/// Where every piece leaves its whole text, the pieces together leave the
/// text of all of them.
pub proof fn lemma_kept_texts_all(pieces: Seq<PieceView>, n: nat, char_width: int, width: int)
    requires
        n <= pieces.len(),
        keeps_all(pieces, char_width, width),
    ensures
        kept_texts(pieces, n, char_width, width) == joined_text(pieces, n),
    decreases n,
{
    if n > 0 {
        lemma_kept_texts_all(pieces, (n - 1) as nat, char_width, width);
    }
}

/// `c` is a space, a tab, a carriage return or a line feed.
pub open spec fn is_space_or_control(c: char) -> bool {
    c == ' ' || c == '\t' || c == '\r' || c == '\n'
}

/// Every character of every one of the first `n` pieces occurs in the
/// pieces' joined text.
pub proof fn lemma_joined_text_contains(pieces: Seq<PieceView>, n: nat, i: int, j: int)
    requires
        n <= pieces.len(),
        0 <= i < n,
        0 <= j < pieces[i].text().len(),
    ensures
        joined_text(pieces, n).contains(pieces[i].text()[j]),
    decreases n,
{
    let before = joined_text(pieces, (n - 1) as nat);
    let whole = joined_text(pieces, n);
    if i == n - 1 {
        assert(whole[before.len() + j] == pieces[i].text()[j]);
    } else {
        lemma_joined_text_contains(pieces, (n - 1) as nat, i, j);
        let k = choose|k: int| 0 <= k < before.len() && before[k] == pieces[i].text()[j];
        assert(whole[k] == pieces[i].text()[j]);
    }
}

/// The words of a text without spaces and control characters are plain:
/// where the words with their spaces cover the text and the spaces are
/// spaces only, no word is a control word and none has spaces, so that
/// placing the words leaves the whole text.
pub proof fn lemma_plain_pieces(
    pieces: Seq<PieceView>,
    text: Seq<char>,
    char_width: int,
    width: int,
)
    requires
        joined_text(pieces, pieces.len()) == text,
        only_spaces(pieces),
        forall|k: int| 0 <= k < text.len() ==> !is_space_or_control(#[trigger] text[k]),
    ensures
        keeps_all(pieces, char_width, width),
{
    assert forall|i: int| 0 <= i < pieces.len() implies kept_text(
        #[trigger] pieces[i],
        char_width,
        width,
    ) == pieces[i].text() by {
        let piece = pieces[i];
        if is_control_word(piece.word) {
            let c = if piece.word.contains('\t') {
                '\t'
            } else if piece.word.contains('\r') {
                '\r'
            } else {
                '\n'
            };
            let j = choose|j: int| 0 <= j < piece.word.len() && piece.word[j] == c;
            assert(piece.text()[j] == c);
            lemma_joined_text_contains(pieces, pieces.len(), i, j);
            assert(false);
        }
        if piece.whitespace.len() > 0 {
            let j = piece.word.len() as int;
            assert(piece.text()[j] == piece.whitespace[0]);
            assert(piece.whitespace[0] == ' ');
            lemma_joined_text_contains(pieces, pieces.len(), i, j);
            assert(false);
        }
        assert(piece.text() =~= piece.word);
    }
}

} // verus!
