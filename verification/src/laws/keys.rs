//! What every key means in every mode.

use vstd::prelude::*;

use crate::action::{
    every_trigger_round_trips, fires, first_hit, hits, home, meaning, mode_group_decides, no_hit, press_of, rows_of, selection_home,
    selection_rows, takes_text, triggers_at_home, Action, Direction, KeyCodeModel, KeyModel, ModeKind, TriggerModel,
};

verus! {

/// The command of a plain character in the selection mode.
pub open spec fn command(c: char) -> Option<Action> {
    match c {
        'j' => Some(Action::MoveDown),
        'k' => Some(Action::MoveUp),
        'h' => Some(Action::MoveLeft),
        'l' => Some(Action::MoveRight),
        'g' => Some(Action::JumpTop),
        'G' => Some(Action::JumpBottom),
        '/' => Some(Action::SearchOpen),
        '?' => Some(Action::HelpToggle),
        'o' => Some(Action::OpenEditor),
        'y' => Some(Action::YankId),
        'Y' => Some(Action::YankName),
        'm' => Some(Action::YankMermaid),
        'x' => Some(Action::YankDot),
        'r' => Some(Action::Reload),
        'z' => Some(Action::Recenter),
        'u' => Some(Action::ToggleUpstream),
        'd' => Some(Action::ToggleDownstream),
        '[' => Some(Action::DepthDecrease),
        ']' => Some(Action::DepthIncrease),
        '0' => Some(Action::ResetView),
        'b' => Some(Action::HistoryBack),
        'f' => Some(Action::HistoryForward),
        'q' => Some(Action::Quit),
        's' => Some(Action::SqlOpen),
        'S' => Some(Action::StatsOpen),
        't' => Some(Action::CycleLens),
        ' ' => Some(Action::BookmarkToggle),
        '\'' => Some(Action::BookmarkCycle),
        '"' => Some(Action::BookmarkCycleBack),
        '.' => Some(Action::SortCycle),
        'M' => Some(Action::ToggleMinimap),
        'v' => Some(Action::ToggleDensity),
        'c' => Some(Action::YankAscii),
        'C' => Some(Action::YankSql),
        'i' => Some(Action::YankImpact),
        'e' => Some(Action::ExportLineage),
        'n' => Some(Action::GapNext),
        'N' => Some(Action::GapPrev),
        'H' => Some(Action::LineageLeftmost),
        'L' => Some(Action::LineageRightmost),
        'T' => Some(Action::ToggleUntestedFilter),
        '*' => Some(Action::ToggleBookmarkFilter),
        'P' => Some(Action::DbtParse),
        'D' => Some(Action::DiffOpen),
        _ => None,
    }
}

/// A character pressed alone.
pub open spec fn alone(c: char) -> KeyModel {
    KeyModel { code: KeyCodeModel::Char(c), control: false, alt: false, command: false }
}

/// A key pressed alone.
pub open spec fn bare(code: KeyCodeModel) -> KeyModel {
    KeyModel { code, control: false, alt: false, command: false }
}

/// A character pressed with Ctrl.
pub open spec fn with_control(c: char) -> KeyModel {
    KeyModel { code: KeyCodeModel::Char(c), control: true, alt: false, command: false }
}

#[verifier::rlimit(60)]
proof fn letter_rows(c: char)
    ensures
        ({
            let i = selection_home(TriggerModel::Key(KeyCodeModel::Char(c)));
            &&& i < 0 <==> command(c) is None
            &&& i >= 0 ==> {
                &&& i < selection_rows().len()
                &&& selection_rows()[i].triggers.len() > 0
                &&& selection_rows()[i].triggers[0] == TriggerModel::Key(KeyCodeModel::Char(c))
                &&& Some(selection_rows()[i].action) == command(c)
            }
        }),
{
}

proof fn unbound(mode: ModeKind, t: TriggerModel)
    requires
        home(mode, t) < 0,
    ensures
        first_hit(rows_of(mode), mode, press_of(t)) is None,
{
    let k = press_of(t);
    let rows = rows_of(mode);
    assert forall|i: int| 0 <= i < rows.len() implies !hits(#[trigger] rows[i], mode, k) by {
        if hits(rows[i], mode, k) {
            let j = choose|j: int| 0 <= j < rows[i].triggers.len() && fires(#[trigger] rows[i].triggers[j], k);
            assert(rows[i].triggers[j] == t);
            triggers_at_home(mode, i, j);
        }
    }
    no_hit(rows, mode, k);
}

/// In the selection mode every character pressed alone is the command that it
/// stands for, and no other character means anything.
pub proof fn letters_are_commands(c: char)
    ensures
        meaning(ModeKind::Selection, alone(c)) == command(c),
{
    let t = TriggerModel::Key(KeyCodeModel::Char(c));
    let i = selection_home(t);
    letter_rows(c);
    assert(press_of(t) == alone(c));
    if i >= 0 {
        every_trigger_round_trips(ModeKind::Selection, i, 0);
    } else {
        unbound(ModeKind::Selection, t);
        mode_group_decides(ModeKind::Selection, alone(c));
    }
}

/// The command of a character with Ctrl in the selection mode.
pub open spec fn chord(c: char) -> Option<Action> {
    match c {
        'b' => Some(Action::ToggleListPane),
        'c' => Some(Action::Quit),
        'p' => Some(Action::PaletteOpen),
        'd' => Some(Action::PageDown),
        'u' => Some(Action::PageUp),
        't' => Some(Action::ThemeCycle),
        _ => None,
    }
}

#[verifier::rlimit(60)]
proof fn chord_rows(c: char)
    ensures
        ({
            let t = TriggerModel::Ctrl(c);
            let i = selection_home(t);
            &&& i < 0 <==> chord(c) is None
            &&& i >= 0 ==> {
                &&& i < selection_rows().len()
                &&& Some(selection_rows()[i].action) == chord(c)
                &&& (selection_rows()[i].triggers.len() > 0 && selection_rows()[i].triggers[0] == t) || (selection_rows()[i].triggers.len() > 1
                    && selection_rows()[i].triggers[1] == t)
            }
        }),
{
}

/// In the selection mode every character with Ctrl is the command that it
/// stands for, and no other one means anything.
pub proof fn chords_are_commands(c: char)
    ensures
        meaning(ModeKind::Selection, with_control(c)) == chord(c),
{
    let t = TriggerModel::Ctrl(c);
    let i = selection_home(t);
    chord_rows(c);
    assert(press_of(t) == with_control(c));
    if i >= 0 {
        if selection_rows()[i].triggers[0] == t {
            every_trigger_round_trips(ModeKind::Selection, i, 0);
        } else {
            every_trigger_round_trips(ModeKind::Selection, i, 1);
        }
    } else {
        unbound(ModeKind::Selection, t);
        mode_group_decides(ModeKind::Selection, with_control(c));
    }
}

/// What a key that is no character means in a mode.
pub open spec fn named_key(mode: ModeKind, code: KeyCodeModel) -> Option<Action> {
    match mode {
        ModeKind::Selection => match code {
            KeyCodeModel::Down => Some(Action::MoveDown),
            KeyCodeModel::Up => Some(Action::MoveUp),
            KeyCodeModel::Left => Some(Action::MoveLeft),
            KeyCodeModel::Right => Some(Action::MoveRight),
            KeyCodeModel::Tab => Some(Action::ToggleFocus),
            KeyCodeModel::Enter => Some(Action::DetailOpen),
            KeyCodeModel::PageDown => Some(Action::PageDown),
            KeyCodeModel::PageUp => Some(Action::PageUp),
            _ => None,
        },
        ModeKind::Search | ModeKind::Palette => match code {
            KeyCodeModel::Esc => Some(Action::SearchCancel),
            KeyCodeModel::Enter => Some(Action::SearchConfirm),
            KeyCodeModel::Backspace => Some(Action::SearchBackspace),
            KeyCodeModel::Up => Some(Action::SearchMove(Direction::Up)),
            KeyCodeModel::Down => Some(Action::SearchMove(Direction::Down)),
            _ => None,
        },
        _ => match code {
            KeyCodeModel::Esc => Some(if mode == ModeKind::Help { Action::HelpToggle } else { Action::DetailClose }),
            KeyCodeModel::Enter => if mode == ModeKind::Help { None } else { Some(Action::DetailClose) },
            KeyCodeModel::Down => Some(Action::DetailScroll(Direction::Down)),
            KeyCodeModel::Up => Some(Action::DetailScroll(Direction::Up)),
            KeyCodeModel::PageDown => Some(Action::DetailScrollPage(Direction::Down)),
            KeyCodeModel::PageUp => Some(Action::DetailScrollPage(Direction::Up)),
            _ => None,
        },
    }
}

#[verifier::rlimit(60)]
proof fn named_rows(mode: ModeKind, code: KeyCodeModel)
    requires
        !(code is Char),
    ensures
        ({
            let t = TriggerModel::Key(code);
            let i = home(mode, t);
            let rows = rows_of(mode);
            &&& i < 0 <==> named_key(mode, code) is None
            &&& i >= 0 ==> {
                &&& i < rows.len()
                &&& Some(rows[i].action) == named_key(mode, code)
                &&& (rows[i].triggers.len() > 0 && rows[i].triggers[0] == t) || (rows[i].triggers.len() > 1 && rows[i].triggers[1] == t)
            }
        }),
{
}

/// The keys that are no characters move in a list or a drawing, edit a query,
/// or scroll and close an overlay, as the mode has it.
pub proof fn named_keys_are_commands(mode: ModeKind, code: KeyCodeModel)
    requires
        !(code is Char),
    ensures
        meaning(mode, bare(code)) == named_key(mode, code),
{
    let t = TriggerModel::Key(code);
    let i = home(mode, t);
    named_rows(mode, code);
    assert(press_of(t) == bare(code));
    if i >= 0 {
        if rows_of(mode)[i].triggers[0] == t {
            every_trigger_round_trips(mode, i, 0);
        } else {
            every_trigger_round_trips(mode, i, 1);
        }
    } else {
        unbound(mode, t);
        mode_group_decides(mode, bare(code));
    }
}

/// What a character pressed alone means in an overlay.
pub open spec fn overlay_letter(mode: ModeKind, c: char) -> Option<Action> {
    match c {
        'q' => Some(if mode == ModeKind::Help { Action::HelpToggle } else { Action::DetailClose }),
        '?' => if mode == ModeKind::Help { Some(Action::HelpToggle) } else { None },
        'j' => Some(Action::DetailScroll(Direction::Down)),
        'k' => Some(Action::DetailScroll(Direction::Up)),
        'd' => Some(Action::DetailScrollPage(Direction::Down)),
        'u' => Some(Action::DetailScrollPage(Direction::Up)),
        'g' => Some(Action::DetailScrollHome),
        'G' => Some(Action::DetailScrollEnd),
        _ => None,
    }
}

#[verifier::rlimit(60)]
proof fn overlay_rows(mode: ModeKind, c: char)
    requires
        mode != ModeKind::Selection,
        !takes_text(mode),
    ensures
        ({
            let t = TriggerModel::Key(KeyCodeModel::Char(c));
            let i = home(mode, t);
            let rows = rows_of(mode);
            &&& i < 0 <==> overlay_letter(mode, c) is None
            &&& i >= 0 ==> {
                &&& i < rows.len()
                &&& Some(rows[i].action) == overlay_letter(mode, c)
                &&& (rows[i].triggers.len() > 0 && rows[i].triggers[0] == t) || (rows[i].triggers.len() > 1 && rows[i].triggers[1] == t) || (
                rows[i].triggers.len() > 2 && rows[i].triggers[2] == t)
            }
        }),
{
}

/// In an overlay the characters scroll or close it, and nothing else.
pub proof fn overlay_letters_scroll_or_close(mode: ModeKind, c: char)
    requires
        mode != ModeKind::Selection,
        !takes_text(mode),
    ensures
        meaning(mode, alone(c)) == overlay_letter(mode, c),
{
    let t = TriggerModel::Key(KeyCodeModel::Char(c));
    let i = home(mode, t);
    overlay_rows(mode, c);
    assert(press_of(t) == alone(c));
    if i >= 0 {
        if rows_of(mode)[i].triggers[0] == t {
            every_trigger_round_trips(mode, i, 0);
        } else if rows_of(mode)[i].triggers[1] == t {
            every_trigger_round_trips(mode, i, 1);
        } else {
            every_trigger_round_trips(mode, i, 2);
        }
    } else {
        unbound(mode, t);
        mode_group_decides(mode, alone(c));
    }
}

} // verus!
