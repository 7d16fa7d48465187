use mseq_firmware::conductor::Conductor;
use mseq_firmware::context::Context;
use mseq_firmware::display::{physical_address, render_diff, DisplayText, Lcd, LcdCommand};
use mseq_firmware::user::UserConductor;

fn text(lines: [&str; 4]) -> DisplayText {
    DisplayText { lines: lines.iter().map(|l| l.chars().collect()).collect() }
}

fn line(t: &DisplayText, i: usize) -> String {
    t.lines[i].iter().collect()
}

#[test]
fn logical_row_two_column_five_is_physical_row_zero_column_25() {
    assert_eq!(physical_address(2, 5), (0, 25));
    assert_eq!(physical_address(0, 0), (0, 0));
    assert_eq!(physical_address(1, 19), (1, 19));
    assert_eq!(physical_address(3, 19), (1, 39));
}

#[test]
fn same_text_gives_no_command() {
    let t = text(["abc", "Bpm: 120", "", "Machines play"]);
    assert!(render_diff(&t, &t).is_empty());
    assert!(render_diff(&DisplayText::new(), &DisplayText::new()).is_empty());
}

#[test]
fn only_changed_characters_are_written() {
    let old = text(["Bpm: 120", "", "Step: 9", ""]);
    let new = text(["Bpm: 121", "", "Step: 10", ""]);
    let cmds = render_diff(&old, &new);
    assert_eq!(
        cmds,
        vec![
            LcdCommand::SetCursor { row: 0, col: 7 },
            LcdCommand::Write { ch: '1' },
            LcdCommand::SetCursor { row: 0, col: 26 },
            LcdCommand::Write { ch: '1' },
            LcdCommand::Write { ch: '0' },
        ]
    );
}

#[test]
fn no_cursor_move_at_home_and_shorter_lines_are_blanked() {
    let old = text(["abcd", "", "", ""]);
    let new = text(["xb", "", "", ""]);
    let cmds = render_diff(&old, &new);
    assert_eq!(
        cmds,
        vec![
            LcdCommand::Write { ch: 'x' },
            LcdCommand::SetCursor { row: 0, col: 2 },
            LcdCommand::Write { ch: ' ' },
            LcdCommand::Write { ch: ' ' },
        ]
    );
}

#[test]
fn lcd_remembers_what_it_shows() {
    let mut lcd = Lcd::new();
    let t = text(["hi", "", "", ""]);
    let first = lcd.update(text(["hi", "", "", ""]));
    assert_eq!(first, vec![LcdCommand::Write { ch: 'h' }, LcdCommand::Write { ch: 'i' }]);
    assert!(lcd.update(t).is_empty());
}

#[test]
fn status_text_of_the_conductor() {
    let mut ctx = Context::new();
    let c = UserConductor::new();
    let t = c.display_text(&ctx);
    assert_eq!(line(&t, 0), " -- Mseq -- ");
    assert_eq!(line(&t, 1), "Bpm: 120");
    assert_eq!(line(&t, 2), "Step: 0");
    assert_eq!(line(&t, 3), "Machines play");
    ctx.set_bpm(7);
    let t = c.display_text(&ctx);
    assert_eq!(line(&t, 1), "Bpm: 7");
}

#[test]
fn longer_line_tail_is_written_whole() {
    let old = text(["", "", "ab", ""]);
    let new = text(["a b", "", "ab c", ""]);
    let cmds = render_diff(&old, &new);
    assert_eq!(
        cmds,
        vec![
            LcdCommand::Write { ch: 'a' },
            LcdCommand::Write { ch: ' ' },
            LcdCommand::Write { ch: 'b' },
            LcdCommand::SetCursor { row: 0, col: 22 },
            LcdCommand::Write { ch: ' ' },
            LcdCommand::Write { ch: 'c' },
        ]
    );
}

#[test]
fn copy_keeps_the_lines() {
    let t = text(["one", "two", "", "four"]);
    let c = t.copy();
    assert_eq!(c.lines, t.lines);
}
