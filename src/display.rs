//! Four lines of text for a 2 x 40 character display, and the smallest
//! sequence of cursor moves and character writes that turns what is shown
//! into new text.
use vstd::prelude::*;

verus! {

/// Logical lines of the text.
pub const DISPLAY_ROWS: usize = 4;

/// Characters per logical line.
pub const DISPLAY_COLS: usize = 20;

/// Text for the display: four logical lines of up to twenty characters.
/// A missing line, and the part of a line past its end, show as blanks.
#[derive(Debug)]
pub struct DisplayText {
    pub lines: Vec<Vec<char>>,
}

impl View for DisplayText {
    type V = Seq<Seq<char>>;

    open spec fn view(&self) -> Seq<Seq<char>> {
        self.lines@.map_values(|l: Vec<char>| l@)
    }
}

impl DisplayText {
    /// The view of four empty lines.
    pub open spec fn new_view() -> Seq<Seq<char>> {
        seq![Seq::<char>::empty(), Seq::<char>::empty(), Seq::<char>::empty(), Seq::<char>::empty()]
    }

    /// Four empty lines.
    pub fn new() -> (r: DisplayText)
        ensures
            r@ == DisplayText::new_view(),
    {
        let r = DisplayText { lines: vec![Vec::new(), Vec::new(), Vec::new(), Vec::new()] };
        assert(r@ =~= DisplayText::new_view());
        r
    }
}

impl DisplayText {
    /// A copy of the text.
    pub fn copy(&self) -> (r: DisplayText)
        ensures
            r@ == self@,
    {
        let mut lines: Vec<Vec<char>> = Vec::new();
        let mut i: usize = 0;
        while i < self.lines.len()
            invariant
                i <= self.lines@.len(),
                lines@.len() == i,
                forall|j: int| 0 <= j < i ==> #[trigger] lines@[j]@ == self.lines@[j]@,
            decreases self.lines@.len() - i,
        {
            let src = &self.lines[i];
            let mut line: Vec<char> = Vec::new();
            let mut c: usize = 0;
            while c < src.len()
                invariant
                    c <= src@.len(),
                    line@ == src@.take(c as int),
                decreases src@.len() - c,
            {
                line.push(src[c]);
                assert(line@ =~= src@.take(c + 1));
                c = c + 1;
            }
            assert(src@.take(src@.len() as int) =~= src@);
            lines.push(line);
            i = i + 1;
        }
        let r = DisplayText { lines };
        assert(r@ =~= self@);
        r
    }
}

impl Default for DisplayText {
    fn default() -> (r: DisplayText)
        ensures
            r@ == DisplayText::new_view(),
    {
        DisplayText::new()
    }
}

/// Length of logical line `r` of the text; a missing line is empty.
pub open spec fn line_len(t: Seq<Seq<char>>, r: int) -> int {
    if 0 <= r < t.len() {
        t[r].len() as int
    } else {
        0
    }
}

/// The character to write at logical row `r`, column `c` when `old` is
/// shown and `new` is wanted, if any. Where both lines reach, a character
/// that changed is written. The tail of a line longer than before is
/// written whole, once the common part is done. Characters left over from
/// a longer line before are blanked where they are not blank already.
#[verifier::opaque]
pub open spec fn change(old: Seq<Seq<char>>, new: Seq<Seq<char>>, r: int, c: int) -> Option<char> {
    let lo = line_len(old, r);
    let ln = line_len(new, r);
    if 0 <= c < ln && c < lo {
        if new[r][c] != old[r][c] {
            Some(new[r][c])
        } else {
            None
        }
    } else if 0 <= c < ln {
        Some(new[r][c])
    } else if 0 <= c < lo {
        if old[r][c] != ' ' {
            Some(' ')
        } else {
            None
        }
    } else {
        None
    }
}

/// Physical row of logical row `row`: rows 0 and 2 share physical row 0,
/// rows 1 and 3 physical row 1.
pub open spec fn physical_row(row: int) -> int {
    row % 2
}

/// Physical column of logical row `row`, column `col`: rows 2 and 3 take the
/// right half of the physical rows.
pub open spec fn physical_col(row: int, col: int) -> int {
    col + 20 * (row / 2)
}

/// Physical (row, column) of a logical position.
pub fn physical_address(row: usize, col: usize) -> (r: (u8, u8))
    requires
        row < DISPLAY_ROWS,
        col < DISPLAY_COLS,
    ensures
        r.0 as int == physical_row(row as int),
        r.1 as int == physical_col(row as int, col as int),
{
    ((row % 2) as u8, (col + (row / 2) * 20) as u8)
}

/// A command for the display.
#[derive(Clone, Copy, PartialEq, Eq, Structural, Debug)]
pub enum LcdCommand {
    /// Move the cursor to a physical position.
    SetCursor { row: u8, col: u8 },
    /// Write a character at the cursor, which then moves one column right.
    Write { ch: char },
}

/// Cursor position after running `cmds` from `start`.
pub open spec fn cursor_after(cmds: Seq<LcdCommand>, start: (int, int)) -> (int, int)
    decreases cmds.len(),
{
    if cmds.len() == 0 {
        start
    } else {
        let before = cursor_after(cmds.drop_last(), start);
        match cmds.last() {
            LcdCommand::SetCursor { row, col } => (row as int, col as int),
            LcdCommand::Write { .. } => (before.0, before.1 + 1),
        }
    }
}

/// The characters that `cmds` writes from `start`, each with the physical
/// position it lands on.
pub open spec fn writes(cmds: Seq<LcdCommand>, start: (int, int)) -> Seq<(int, int, char)>
    decreases cmds.len(),
{
    if cmds.len() == 0 {
        Seq::empty()
    } else {
        let before = writes(cmds.drop_last(), start);
        match cmds.last() {
            LcdCommand::SetCursor { .. } => before,
            LcdCommand::Write { ch } => {
                let at = cursor_after(cmds.drop_last(), start);
                before.push((at.0, at.1, ch))
            },
        }
    }
}

/// The writes that turn `old` into `new`, over the first `k` logical
/// positions, rows in order and columns ascending: one for each position
/// where `change` gives a character.
pub open spec fn diff_upto(old: Seq<Seq<char>>, new: Seq<Seq<char>>, k: int) -> Seq<(int, int, char)>
    decreases k,
{
    if k <= 0 {
        Seq::empty()
    } else {
        let before = diff_upto(old, new, k - 1);
        let r = (k - 1) / 20;
        let c = (k - 1) % 20;
        match change(old, new, r, c) {
            Some(ch) => before.push((physical_row(r), physical_col(r, c), ch)),
            None => before,
        }
    }
}

/// Nothing changes where the text is the same.
pub proof fn lemma_change_same(t: Seq<Seq<char>>, r: int, c: int)
    ensures
        change(t, t, r, c) is None,
{
    reveal(change);
}

/// The writes that turn `old` into `new` over the whole text.
pub open spec fn diff(old: Seq<Seq<char>>, new: Seq<Seq<char>>) -> Seq<(int, int, char)> {
    diff_upto(old, new, 80)
}

/// No cursor move in `cmds` goes where the cursor already stands.
pub open spec fn no_idle_moves(cmds: Seq<LcdCommand>, start: (int, int)) -> bool {
    forall|i: int|
        0 <= i < cmds.len() ==> (#[trigger] cmds[i] matches LcdCommand::SetCursor { row, col } ==> (
        row as int,
        col as int,
    ) != cursor_after(cmds.take(i), start))
}

/// Every cursor move in `cmds` is followed at once by a write.
pub open spec fn moves_then_writes(cmds: Seq<LcdCommand>) -> bool {
    forall|i: int|
        0 <= i < cmds.len() ==> (#[trigger] cmds[i] is SetCursor ==> i + 1 < cmds.len()
            && cmds[i + 1] is Write)
}

/// The commands that turn the shown text `old` into `new`, the cursor
/// standing at home first. Only changed characters are written, and the
/// cursor is moved only where it does not already stand; equal texts give
/// no command at all.
pub fn render_diff(old: &DisplayText, new: &DisplayText) -> (r: Vec<LcdCommand>)
    ensures
        writes(r@, (0, 0)) == diff(old@, new@),
        no_idle_moves(r@, (0, 0)),
        moves_then_writes(r@),
        old@ == new@ ==> r@.len() == 0,
{
    let mut cmds: Vec<LcdCommand> = Vec::new();
    let mut cursor_row: u8 = 0;
    let mut cursor_col: u8 = 0;
    let mut k: usize = 0;
    while k < DISPLAY_ROWS * DISPLAY_COLS
        invariant
            k <= 80,
            writes(cmds@, (0, 0)) == diff_upto(old@, new@, k as int),
            cursor_after(cmds@, (0, 0)) == (cursor_row as int, cursor_col as int),
            cursor_col <= 40,
            no_idle_moves(cmds@, (0, 0)),
            moves_then_writes(cmds@),
            old@ == new@ ==> cmds@.len() == 0,
        decreases 80 - k,
    {
        let row = k / DISPLAY_COLS;
        let col = k % DISPLAY_COLS;
        proof {
            lemma_change_same(old@, row as int, col as int);
        }
        let wanted = change_at(old, new, row, col);
        if wanted.is_some() {
            let (pr, pc) = physical_address(row, col);
            emit_write(&mut cmds, &mut cursor_row, &mut cursor_col, pr, pc, wanted.unwrap());
            assert(writes(cmds@, (0, 0)) == diff_upto(old@, new@, k + 1));
        } else {
            assert(diff_upto(old@, new@, k + 1) == diff_upto(old@, new@, k as int));
        }
        k = k + 1;
    }
    cmds
}

/// Appends the commands that write `ch` at physical (`pr`, `pc`): a cursor
/// move first where the cursor stands elsewhere.
fn emit_write(
    cmds: &mut Vec<LcdCommand>,
    cursor_row: &mut u8,
    cursor_col: &mut u8,
    pr: u8,
    pc: u8,
    ch: char,
)
    requires
        cursor_after(old(cmds)@, (0, 0)) == (*old(cursor_row) as int, *old(cursor_col) as int),
        no_idle_moves(old(cmds)@, (0, 0)),
        moves_then_writes(old(cmds)@),
        pc < 40,
    ensures
        writes(final(cmds)@, (0, 0)) == writes(old(cmds)@, (0, 0)).push((pr as int, pc as int, ch)),
        cursor_after(final(cmds)@, (0, 0)) == (*final(cursor_row) as int, *final(cursor_col) as int),
        *final(cursor_col) <= 40,
        no_idle_moves(final(cmds)@, (0, 0)),
        moves_then_writes(final(cmds)@),
        final(cmds)@.len() > 0,
{
    let ghost before = cmds@;
    if pr != *cursor_row || pc != *cursor_col {
        cmds.push(LcdCommand::SetCursor { row: pr, col: pc });
        proof {
            assert(cmds@.drop_last() =~= before);
            assert forall|i: int| 0 <= i < cmds@.len() implies (#[trigger] cmds@[i] matches LcdCommand::SetCursor { row, col } ==> (
                row as int,
                col as int,
            ) != cursor_after(cmds@.take(i), (0, 0))) by {
                if i < before.len() {
                    assert(cmds@.take(i) =~= before.take(i));
                } else {
                    assert(cmds@.take(i) =~= before);
                }
            }
        }
        *cursor_row = pr;
        *cursor_col = pc;
        assert(writes(cmds@, (0, 0)) == writes(before, (0, 0)));
    }
    let ghost mid = cmds@;
    cmds.push(LcdCommand::Write { ch });
    proof {
        assert(cmds@.drop_last() =~= mid);
        assert forall|i: int| 0 <= i < cmds@.len() && #[trigger] cmds@[i] is SetCursor implies i + 1
            < cmds@.len() && cmds@[i + 1] is Write by {
            if i < before.len() {
                assert(cmds@[i] == before[i]);
                if before[i] is SetCursor {
                    assert(cmds@[i + 1] == before[i + 1]);
                }
            }
        }
        assert forall|i: int| 0 <= i < cmds@.len() implies (#[trigger] cmds@[i] matches LcdCommand::SetCursor { row, col } ==> (
            row as int,
            col as int,
        ) != cursor_after(cmds@.take(i), (0, 0))) by {
            if i < mid.len() {
                assert(cmds@.take(i) =~= mid.take(i));
            }
        }
    }
    *cursor_col = *cursor_col + 1;
}

/// The character to write at logical position (`row`, `col`), if any.
fn change_at(old: &DisplayText, new: &DisplayText, row: usize, col: usize) -> (r: Option<char>)
    ensures
        r == change(old@, new@, row as int, col as int),
{
    reveal(change);
    let lo: usize = if row < old.lines.len() {
        old.lines[row].len()
    } else {
        0
    };
    let ln: usize = if row < new.lines.len() {
        new.lines[row].len()
    } else {
        0
    };
    if col < ln && col < lo {
        let n = new.lines[row][col];
        if n != old.lines[row][col] {
            Some(n)
        } else {
            None
        }
    } else if col < ln {
        Some(new.lines[row][col])
    } else if col < lo {
        if old.lines[row][col] != ' ' {
            Some(' ')
        } else {
            None
        }
    } else {
        None
    }
}

/// What the display shows, and the commands that bring it up to date.
pub struct Lcd {
    current_display: DisplayText,
}

impl Lcd {
    /// A display that shows blanks.
    pub fn new() -> (r: Lcd)
        ensures
            r.shown() == DisplayText::new_view(),
    {
        Lcd { current_display: DisplayText::new() }
    }

    /// The text on the display.
    pub closed spec fn shown(&self) -> Seq<Seq<char>> {
        self.current_display@
    }

    /// The commands that turn the text shown into `text`, which is shown
    /// afterwards.
    pub fn update(&mut self, text: DisplayText) -> (r: Vec<LcdCommand>)
        ensures
            writes(r@, (0, 0)) == diff(old(self).shown(), text@),
            no_idle_moves(r@, (0, 0)),
            moves_then_writes(r@),
            old(self).shown() == text@ ==> r@.len() == 0,
            final(self).shown() == text@,
    {
        let r = render_diff(&self.current_display, &text);
        self.current_display = text;
        r
    }
}

} // verus!
